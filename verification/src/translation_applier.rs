//! The binding and import applier: the post-pass that, for every function
//! in the modified-function registry, ensures a translation-function binding
//! is in scope (a synchronous hook call in client mode, an awaited retrieval
//! in server mode), and ensures the client directive and the required import
//! declaration exist at module scope.
use vstd::prelude::*;

verus! {

use crate::ast::{
    decls_view, expr_view, exprs_view, lemma_decls_view, lemma_stmts_view, pat_view,
    stmt_view, stmts_view, strings_view, Expr, ExprV, Module, ModuleV, Pat, PatV, Stmt,
    StmtV,
};

/// The applier's configuration, immutable per invocation.
#[derive(Debug)]
pub struct ApplierConfig {
    pub mode: Option<String>,
    pub framework: Option<String>,
    pub server_translation_function: Option<String>,
    pub translation_import_source: String,
}

#[verifier::ext_equal]
pub struct ApplierConfigV {
    pub mode: Option<Seq<char>>,
    pub framework: Option<Seq<char>>,
    pub server_translation_function: Option<Seq<char>>,
    pub translation_import_source: Seq<char>,
}

impl View for ApplierConfig {
    type V = ApplierConfigV;

    open spec fn view(&self) -> ApplierConfigV {
        ApplierConfigV {
            mode: match self.mode {
                Some(ref m) => Some(m@),
                None => None,
            },
            framework: match self.framework {
                Some(ref f) => Some(f@),
                None => None,
            },
            server_translation_function: match self.server_translation_function {
                Some(ref f) => Some(f@),
                None => None,
            },
            translation_import_source: self.translation_import_source@,
        }
    }
}

pub open spec fn is_client_mode(c: ApplierConfigV) -> bool {
    c.mode == Some("client"@)
}

pub open spec fn is_server_mode(c: ApplierConfigV) -> bool {
    c.mode == Some("server"@)
}

pub open spec fn is_nextjs(c: ApplierConfigV) -> bool {
    c.framework == Some("nextjs"@)
}

/// The configured server retrieval function, with its default.
pub open spec fn server_fn_name(c: ApplierConfigV) -> Seq<char> {
    match c.server_translation_function {
        Some(n) => n,
        None => "getTranslations"@,
    }
}

/// The external accessor the inserted bindings call, when a mode is set.
pub open spec fn accessor_name(c: ApplierConfigV) -> Option<Seq<char>> {
    if is_client_mode(c) {
        Some("useTranslation"@)
    } else if is_server_mode(c) {
        Some(server_fn_name(c))
    } else {
        None
    }
}

/// The client-directive statement.
pub open spec fn directive_stmt() -> StmtV {
    StmtV::Expr { expr: ExprV::StrLit { value: "use client"@, line: 0 } }
}

/// The statement is the client directive.
pub open spec fn is_directive(s: StmtV) -> bool {
    match s {
        StmtV::Expr { expr: ExprV::StrLit { value, line: _ } } => value == "use client"@,
        _ => false,
    }
}

/// `const { t } = useTranslation();`
pub open spec fn client_binding() -> StmtV {
    StmtV::VarDecl {
        decls: seq![
            (
                PatV::Obj { names: seq!["t"@] },
                ExprV::Call {
                    callee: Box::new(ExprV::Ident { name: "useTranslation"@ }),
                    args: Seq::empty(),
                },
            ),
        ],
    }
}

/// `const { t } = await <serverFn>();`
pub open spec fn server_binding(fname: Seq<char>) -> StmtV {
    StmtV::VarDecl {
        decls: seq![
            (
                PatV::Obj { names: seq!["t"@] },
                ExprV::Await {
                    inner: Box::new(ExprV::Call {
                        callee: Box::new(ExprV::Ident { name: fname }),
                        args: Seq::empty(),
                    }),
                },
            ),
        ],
    }
}

/// The pattern binds the name `t`.
pub open spec fn pat_binds_t(p: PatV) -> bool {
    match p {
        PatV::Id { name } => name == "t"@,
        PatV::Obj { names } => names.contains("t"@),
        PatV::Other { .. } => false,
    }
}

/// The statement declares a binding named `t`.
pub open spec fn stmt_binds_t(s: StmtV) -> bool {
    match s {
        StmtV::VarDecl { decls } => exists|i: int|
            0 <= i < decls.len() && #[trigger] pat_binds_t(decls[i].0),
        _ => false,
    }
}

/// The body already has a binding named `t` in its own scope.
pub open spec fn binds_t(ss: Seq<StmtV>) -> bool {
    exists|i: int| 0 <= i < ss.len() && #[trigger] stmt_binds_t(ss[i])
}

/// The body of a modified function after the applier: the mode's binding is
/// put at the top unless a binding of the same target name already exists,
/// which keeps repeated runs from stacking bindings.
pub open spec fn apply_body(body: Seq<StmtV>, c: ApplierConfigV) -> Seq<StmtV> {
    if binds_t(body) {
        body
    } else if is_client_mode(c) {
        seq![client_binding()] + body
    } else if is_server_mode(c) {
        seq![server_binding(server_fn_name(c))] + body
    } else {
        body
    }
}

/// In server mode a modified function becomes asynchronous.
pub open spec fn apply_async(is_async: bool, c: ApplierConfigV) -> bool {
    is_async || is_server_mode(c)
}

pub open spec fn apply_decl(
    d: (PatV, ExprV),
    names: Seq<Seq<char>>,
    c: ApplierConfigV,
) -> (PatV, ExprV) {
    match d {
        (PatV::Id { name }, ExprV::Arrow { is_async, body }) => if names.contains(name) {
            (
                PatV::Id { name },
                ExprV::Arrow { is_async: apply_async(is_async, c), body: apply_body(body, c) },
            )
        } else {
            d
        },
        _ => d,
    }
}

pub open spec fn apply_decls(
    ds: Seq<(PatV, ExprV)>,
    names: Seq<Seq<char>>,
    c: ApplierConfigV,
) -> Seq<(PatV, ExprV)>
    decreases ds,
{
    if ds.len() == 0 {
        Seq::empty()
    } else {
        apply_decls(ds.drop_last(), names, c).push(apply_decl(ds.last(), names, c))
    }
}

/// One statement after the applier's per-function pass.
pub open spec fn apply_stmt(s: StmtV, names: Seq<Seq<char>>, c: ApplierConfigV) -> StmtV {
    match s {
        StmtV::FnDecl { name, is_async, body } => if names.contains(name) {
            StmtV::FnDecl {
                name,
                is_async: apply_async(is_async, c),
                body: apply_body(body, c),
            }
        } else {
            s
        },
        StmtV::VarDecl { decls } => StmtV::VarDecl { decls: apply_decls(decls, names, c) },
        _ => s,
    }
}

pub open spec fn apply_stmts(
    ss: Seq<StmtV>,
    names: Seq<Seq<char>>,
    c: ApplierConfigV,
) -> Seq<StmtV>
    decreases ss,
{
    if ss.len() == 0 {
        Seq::empty()
    } else {
        apply_stmts(ss.drop_last(), names, c).push(apply_stmt(ss.last(), names, c))
    }
}

/// The module body with the client directive ensured first, in client mode
/// under the `nextjs` framework, and never duplicated.
pub open spec fn with_directive(ss: Seq<StmtV>, c: ApplierConfigV) -> Seq<StmtV> {
    if is_nextjs(c) && is_client_mode(c) {
        if ss.len() > 0 && is_directive(ss[0]) {
            ss
        } else {
            seq![directive_stmt()] + ss
        }
    } else {
        ss
    }
}

/// The position of the first import declaration from the given source.
pub open spec fn find_import(ss: Seq<StmtV>, source: Seq<char>, i: int) -> Option<int>
    decreases ss.len() - i,
{
    if i < 0 || i >= ss.len() {
        None
    } else {
        match ss[i] {
            StmtV::Import { names: _, source: src } => if src == source {
                Some(i)
            } else {
                find_import(ss, source, i + 1)
            },
            _ => find_import(ss, source, i + 1),
        }
    }
}

/// A name list with the given name ensured present, once.
pub open spec fn add_name(names: Seq<Seq<char>>, n: Seq<char>) -> Seq<Seq<char>> {
    if names.contains(n) {
        names
    } else {
        names.push(n)
    }
}

/// The module body with exactly one import of `name` from `source` ensured:
/// merged into an existing import of the same source when one exists,
/// otherwise a new declaration after a leading directive.
pub open spec fn ensure_import(ss: Seq<StmtV>, name: Seq<char>, source: Seq<char>) -> Seq<
    StmtV,
> {
    match find_import(ss, source, 0) {
        Some(i) => {
            let old_names = ss[i]->Import_names;
            ss.update(i, StmtV::Import { names: add_name(old_names, name), source })
        },
        None => {
            let at: int = if ss.len() > 0 && is_directive(ss[0]) {
                1
            } else {
                0
            };
            ss.insert(at, StmtV::Import { names: seq![name], source })
        },
    }
}

/// The module body with the accessor's import ensured, when a mode is set
/// and at least one function was modified.
pub open spec fn apply_imports(
    ss: Seq<StmtV>,
    names: Seq<Seq<char>>,
    c: ApplierConfigV,
) -> Seq<StmtV> {
    match accessor_name(c) {
        Some(an) => if names.len() > 0 {
            ensure_import(ss, an, c.translation_import_source)
        } else {
            ss
        },
        None => ss,
    }
}

/// The whole applier pass over one module.
pub open spec fn apply_module(m: ModuleV, names: Seq<Seq<char>>, c: ApplierConfigV) -> ModuleV {
    ModuleV {
        body: apply_imports(with_directive(apply_stmts(m.body, names, c), c), names, c),
    }
}

pub broadcast proof fn lemma_apply_stmts(
    ss: Seq<StmtV>,
    names: Seq<Seq<char>>,
    c: ApplierConfigV,
)
    ensures
        (#[trigger] apply_stmts(ss, names, c)).len() == ss.len(),
        forall|i: int|
            0 <= i < ss.len() ==> apply_stmts(ss, names, c)[i] == apply_stmt(
                ss[i],
                names,
                c,
            ),
    decreases ss.len(),
{
    if ss.len() > 0 {
        lemma_apply_stmts(ss.drop_last(), names, c);
    }
}

pub broadcast proof fn lemma_apply_decls(
    ds: Seq<(PatV, ExprV)>,
    names: Seq<Seq<char>>,
    c: ApplierConfigV,
)
    ensures
        (#[trigger] apply_decls(ds, names, c)).len() == ds.len(),
        forall|i: int|
            0 <= i < ds.len() ==> apply_decls(ds, names, c)[i] == apply_decl(
                ds[i],
                names,
                c,
            ),
    decreases ds.len(),
{
    if ds.len() > 0 {
        lemma_apply_decls(ds.drop_last(), names, c);
    }
}

// ---------------------------------------------------------------------------
// The applier itself.
// ---------------------------------------------------------------------------

use vstd::string::{StrSliceExecFns, StringExecFns};
use crate::ast_transformers::{
    clone_strings, copy_expr, copy_pat, copy_stmt, copy_stmts,
};
use crate::text::{str_eq, string_clone};

fn is_client_exec(config: &ApplierConfig) -> (r: bool)
    ensures
        r == is_client_mode(config@),
{
    match &config.mode {
        Some(m) => str_eq(m.as_str(), "client"),
        None => false,
    }
}

fn is_server_exec(config: &ApplierConfig) -> (r: bool)
    ensures
        r == is_server_mode(config@),
{
    match &config.mode {
        Some(m) => str_eq(m.as_str(), "server"),
        None => false,
    }
}

fn is_nextjs_exec(config: &ApplierConfig) -> (r: bool)
    ensures
        r == is_nextjs(config@),
{
    match &config.framework {
        Some(f) => str_eq(f.as_str(), "nextjs"),
        None => false,
    }
}

fn server_fn_of(config: &ApplierConfig) -> (r: String)
    ensures
        r@ == server_fn_name(config@),
{
    match &config.server_translation_function {
        Some(f) => string_clone(f),
        None => String::from_str("getTranslations"),
    }
}

/// `const { t } = useTranslation();`
fn make_client_binding() -> (s: Stmt)
    ensures
        stmt_view(s) == client_binding(),
{
    let mut names: Vec<String> = Vec::new();
    names.push(String::from_str("t"));
    proof {
        assert(strings_view(names@) =~= seq!["t"@]);
    }
    let pat = Pat::Obj { names };
    let ghost pv = pat_view(pat);
    proof {
        assert(pv == (PatV::Obj { names: seq!["t"@] }));
    }
    let callee = Expr::Ident { name: String::from_str("useTranslation") };
    let ghost eev = expr_view(callee);
    proof {
        assert(eev == (ExprV::Ident { name: "useTranslation"@ }));
    }
    let args: Vec<Expr> = Vec::new();
    let call = Expr::Call { callee: Box::new(callee), args };
    let ghost cv = expr_view(call);
    proof {
        assert(exprs_view(call->Call_args@) =~= Seq::<ExprV>::empty());
        assert(cv == (ExprV::Call { callee: Box::new(eev), args: Seq::empty() }));
    }
    let mut decls: Vec<(Pat, Expr)> = Vec::new();
    decls.push((pat, call));
    let s = Stmt::VarDecl { decls };
    proof {
        lemma_decls_view(s->VarDecl_decls@);
        assert(decls_view(s->VarDecl_decls@) =~= seq![(pv, cv)]);
        assert(stmt_view(s) == client_binding());
    }
    s
}

/// `const { t } = await <serverFn>();`
fn make_server_binding(config: &ApplierConfig) -> (s: Stmt)
    ensures
        stmt_view(s) == server_binding(server_fn_name(config@)),
{
    let fname = server_fn_of(config);
    let ghost fv = fname@;
    let mut names: Vec<String> = Vec::new();
    names.push(String::from_str("t"));
    proof {
        assert(strings_view(names@) =~= seq!["t"@]);
    }
    let pat = Pat::Obj { names };
    let ghost pv = pat_view(pat);
    proof {
        assert(pv == (PatV::Obj { names: seq!["t"@] }));
    }
    let callee = Expr::Ident { name: fname };
    let ghost eev = expr_view(callee);
    proof {
        assert(eev == (ExprV::Ident { name: fv }));
    }
    let args: Vec<Expr> = Vec::new();
    let inner_call = Expr::Call { callee: Box::new(callee), args };
    let ghost icv = expr_view(inner_call);
    proof {
        assert(exprs_view(inner_call->Call_args@) =~= Seq::<ExprV>::empty());
        assert(icv == (ExprV::Call { callee: Box::new(eev), args: Seq::empty() }));
    }
    let call = Expr::Await { inner: Box::new(inner_call) };
    let ghost cv = expr_view(call);
    proof {
        assert(cv == (ExprV::Await { inner: Box::new(icv) }));
    }
    let mut decls: Vec<(Pat, Expr)> = Vec::new();
    decls.push((pat, call));
    let s = Stmt::VarDecl { decls };
    proof {
        lemma_decls_view(s->VarDecl_decls@);
        assert(decls_view(s->VarDecl_decls@) =~= seq![(pv, cv)]);
        assert(stmt_view(s) == server_binding(fv));
    }
    s
}

fn pat_binds_t_exec(p: &Pat) -> (r: bool)
    ensures
        r == pat_binds_t(pat_view(*p)),
{
    match p {
        Pat::Id { name } => str_eq(name.as_str(), "t"),
        Pat::Obj { names } => {
            let mut i: usize = 0;
            while i < names.len()
                invariant
                    i <= names@.len(),
                    pat_view(*p) == (PatV::Obj { names: strings_view(names@) }),
                    forall|j: int|
                        0 <= j < i ==> #[trigger] strings_view(names@)[j] != "t"@,
                decreases names@.len() - i,
            {
                if str_eq(names[i].as_str(), "t") {
                    proof {
                        assert(strings_view(names@)[i as int] == "t"@);
                        assert(strings_view(names@).contains("t"@));
                    }
                    return true;
                }
                proof {
                    assert(strings_view(names@)[i as int] == names@[i as int]@);
                }
                i += 1;
            }
            proof {
                assert(!strings_view(names@).contains("t"@)) by {
                    if strings_view(names@).contains("t"@) {
                        let j = choose|j: int|
                            0 <= j < strings_view(names@).len() && strings_view(names@)[j]
                                == "t"@;
                        assert(strings_view(names@)[j] != "t"@);
                    }
                }
            }
            false
        },
        Pat::Other { .. } => false,
    }
}

fn stmt_binds_t_exec(s: &Stmt) -> (r: bool)
    ensures
        r == stmt_binds_t(stmt_view(*s)),
{
    match s {
        Stmt::VarDecl { decls } => {
            let mut i: usize = 0;
            while i < decls.len()
                invariant
                    i <= decls@.len(),
                    stmt_view(*s) == (StmtV::VarDecl { decls: decls_view(decls@) }),
                    forall|j: int|
                        0 <= j < i ==> !pat_binds_t((#[trigger] decls_view(decls@)[j]).0),
                decreases decls@.len() - i,
            {
                proof {
                    lemma_decls_view(decls@);
                }
                if pat_binds_t_exec(&decls[i].0) {
                    proof {
                        lemma_decls_view(decls@);
                        assert(pat_binds_t((decls_view(decls@)[i as int]).0));
                        assert(stmt_view(*s)->VarDecl_decls == decls_view(decls@));
                        assert(pat_binds_t(stmt_view(*s)->VarDecl_decls[i as int].0));
                        assert(stmt_binds_t(stmt_view(*s)));
                    }
                    return true;
                }
                i += 1;
            }
            proof {
                lemma_decls_view(decls@);
            }
            false
        },
        _ => false,
    }
}

fn body_binds_t(v: &Vec<Stmt>) -> (r: bool)
    ensures
        r == binds_t(stmts_view(v@)),
{
    let mut i: usize = 0;
    while i < v.len()
        invariant
            i <= v@.len(),
            forall|j: int| 0 <= j < i ==> !stmt_binds_t(#[trigger] stmts_view(v@)[j]),
        decreases v@.len() - i,
    {
        proof {
            lemma_stmts_view(v@);
        }
        if stmt_binds_t_exec(&v[i]) {
            proof {
                assert(stmt_binds_t(stmts_view(v@)[i as int]));
                assert(binds_t(stmts_view(v@)));
            }
            return true;
        }
        i += 1;
    }
    proof {
        lemma_stmts_view(v@);
    }
    false
}

/// The body of one modified function with its binding ensured.
fn apply_body_exec(body: &Vec<Stmt>, config: &ApplierConfig) -> (r: Vec<Stmt>)
    ensures
        stmts_view(r@) == apply_body(stmts_view(body@), config@),
{
    let ghost bv = stmts_view(body@);
    if body_binds_t(body) {
        copy_stmts(body)
    } else if is_client_exec(config) {
        let mut out: Vec<Stmt> = Vec::new();
        let binding = make_client_binding();
        let ghost bindv = stmt_view(binding);
        out.push(binding);
        let mut rest = copy_stmts(body);
        let ghost restv = rest@;
        let ghost head = out@;
        out.append(&mut rest);
        proof {
            lemma_stmts_view(restv);
            lemma_stmts_view(out@);
            lemma_stmts_view(body@);
            assert(out@ == head + restv);
            assert(head.len() == 1);
            assert(stmt_view(out@[0]) == bindv);
            assert(forall|j: int| 0 <= j < restv.len() ==> out@[1 + j] == #[trigger] restv[j]);
            assert(stmts_view(out@) =~= seq![client_binding()] + bv) by {
                assert(restv.len() == body@.len());
                assert(out@.len() == 1 + body@.len());
                assert(stmt_view(out@[0]) == client_binding());
                assert(forall|j: int|
                    1 <= j < out@.len() ==> stmt_view(#[trigger] out@[j]) == stmt_view(
                        restv[j - 1],
                    ));
                assert forall|j: int|
                    0 <= j < restv.len() implies stmt_view(#[trigger] restv[j])
                    == stmt_view(body@[j]) by {
                    assert(stmts_view(restv)[j] == stmt_view(restv[j]));
                    assert(stmts_view(body@)[j] == stmt_view(body@[j]));
                }
            }
        }
        out
    } else if is_server_exec(config) {
        let mut out: Vec<Stmt> = Vec::new();
        let binding = make_server_binding(config);
        let ghost bindv = stmt_view(binding);
        out.push(binding);
        let mut rest = copy_stmts(body);
        let ghost restv = rest@;
        let ghost head = out@;
        out.append(&mut rest);
        proof {
            lemma_stmts_view(restv);
            lemma_stmts_view(out@);
            lemma_stmts_view(body@);
            assert(out@ == head + restv);
            assert(head.len() == 1);
            assert(stmt_view(out@[0]) == bindv);
            assert(forall|j: int| 0 <= j < restv.len() ==> out@[1 + j] == #[trigger] restv[j]);
            assert(stmts_view(out@) =~= seq![server_binding(server_fn_name(config@))] + bv)
                by {
                assert(restv.len() == body@.len());
                assert(out@.len() == 1 + body@.len());
                assert(stmt_view(out@[0]) == server_binding(server_fn_name(config@)));
                assert(forall|j: int|
                    1 <= j < out@.len() ==> stmt_view(#[trigger] out@[j]) == stmt_view(
                        restv[j - 1],
                    ));
                assert forall|j: int|
                    0 <= j < restv.len() implies stmt_view(#[trigger] restv[j])
                    == stmt_view(body@[j]) by {
                    assert(stmts_view(restv)[j] == stmt_view(restv[j]));
                    assert(stmts_view(body@)[j] == stmt_view(body@[j]));
                }
            }
        }
        out
    } else {
        copy_stmts(body)
    }
}

/// Whether the registry holds this name.
fn contains_name(names: &Vec<String>, n: &String) -> (r: bool)
    ensures
        r == names.deep_view().contains(n@),
{
    let mut i: usize = 0;
    while i < names.len()
        invariant
            i <= names@.len(),
            forall|j: int| 0 <= j < i ==> #[trigger] names.deep_view()[j] != n@,
        decreases names@.len() - i,
    {
        if n.eq(&names[i]) {
            proof {
                assert(names.deep_view()[i as int] == n@);
            }
            return true;
        }
        i += 1;
    }
    proof {
        assert(!names.deep_view().contains(n@)) by {
            if names.deep_view().contains(n@) {
                let j = choose|j: int|
                    0 <= j < names.deep_view().len() && names.deep_view()[j] == n@;
                assert(names.deep_view()[j] != n@);
            }
        }
    }
    false
}

/// One statement after the per-function pass.
fn apply_stmt_exec(s: &Stmt, names: &Vec<String>, config: &ApplierConfig) -> (r: Stmt)
    ensures
        stmt_view(r) == apply_stmt(stmt_view(*s), names.deep_view(), config@),
{
    let ghost sv = stmt_view(*s);
    let ghost nv = names.deep_view();
    match s {
        Stmt::FnDecl { name, is_async, body } => {
            if contains_name(names, name) {
                let server = is_server_exec(config);
                let r = Stmt::FnDecl {
                    name: string_clone(name),
                    is_async: *is_async || server,
                    body: apply_body_exec(body, config),
                };
                proof {
                    assert(stmt_view(r) == apply_stmt(sv, nv, config@));
                }
                r
            } else {
                let r = copy_stmt(s);
                proof {
                    assert(apply_stmt(sv, nv, config@) == sv);
                }
                r
            }
        },
        Stmt::VarDecl { decls } => {
            let ghost dv = decls_view(decls@);
            let mut nd: Vec<(Pat, Expr)> = Vec::new();
            let mut k: usize = 0;
            proof {
                lemma_decls_view(decls@);
            }
            while k < decls.len()
                invariant
                    k <= decls@.len(),
                    dv == decls_view(decls@),
                    dv.len() == decls@.len(),
                    nv == names.deep_view(),
                    nd@.len() == k,
                    forall|j: int|
                        0 <= j < k ==> (
                            pat_view((#[trigger] nd@[j]).0),
                            expr_view(nd@[j].1),
                        ) == apply_decl(dv[j], nv, config@),
                decreases decls@.len() - k,
            {
                proof {
                    lemma_decls_view(decls@);
                    assert(dv[k as int] == (
                        pat_view(decls@[k as int].0),
                        expr_view(decls@[k as int].1),
                    ));
                }
                let named: Option<&String> = match &decls[k].0 {
                    Pat::Id { name } => Some(name),
                    _ => None,
                };
                let hit = match named {
                    Some(n) => contains_name(names, n),
                    None => false,
                };
                let is_arrow = matches!(&decls[k].1, Expr::Arrow { .. });
                if hit && is_arrow {
                    match &decls[k].1 {
                        Expr::Arrow { is_async, body } => {
                            let server = is_server_exec(config);
                            let np = copy_pat(&decls[k].0);
                            let nx = Expr::Arrow {
                                is_async: *is_async || server,
                                body: apply_body_exec(body, config),
                            };
                            proof {
                                assert((pat_view(np), expr_view(nx)) == apply_decl(
                                    dv[k as int],
                                    nv,
                                    config@,
                                ));
                            }
                            nd.push((np, nx));
                        },
                        _ => {},
                    }
                } else {
                    let np = copy_pat(&decls[k].0);
                    let nx = copy_expr(&decls[k].1);
                    proof {
                        assert(apply_decl(dv[k as int], nv, config@) == dv[k as int]);
                    }
                    nd.push((np, nx));
                }
                k += 1;
            }
            let r = Stmt::VarDecl { decls: nd };
            proof {
                lemma_apply_decls(dv, nv, config@);
                lemma_decls_view(nd@);
                assert(decls_view(nd@) =~= apply_decls(dv, nv, config@));
                assert(stmt_view(r) == apply_stmt(sv, nv, config@));
            }
            r
        },
        _ => {
            let r = copy_stmt(s);
            proof {
                assert(apply_stmt(sv, nv, config@) == sv);
            }
            r
        },
    }
}

fn is_directive_exec(s: &Stmt) -> (r: bool)
    ensures
        r == is_directive(stmt_view(*s)),
{
    match s {
        Stmt::Expr { expr: Expr::StrLit { value, line: _ } } => str_eq(
            value.as_str(),
            "use client",
        ),
        _ => false,
    }
}

fn make_directive() -> (s: Stmt)
    ensures
        stmt_view(s) == directive_stmt(),
{
    Stmt::Expr { expr: Expr::StrLit { value: String::from_str("use client"), line: 0 } }
}

/// A found import position lies inside the statement list, is an import,
/// and carries the searched source.
pub proof fn lemma_find_import_found(ss: Seq<StmtV>, source: Seq<char>, i: int)
    requires
        0 <= i,
    ensures
        match find_import(ss, source, i) {
            Some(p) => i <= p < ss.len() && ss[p] is Import && ss[p]->Import_source
                == source,
            None => true,
        },
    decreases ss.len() - i,
{
    if i < ss.len() {
        match ss[i] {
            StmtV::Import { names: _, source: src } => {
                if src != source {
                    lemma_find_import_found(ss, source, i + 1);
                }
            },
            _ => {
                lemma_find_import_found(ss, source, i + 1);
            },
        }
    }
}

/// Whether the statement list holds an import from the given source.
pub(crate) fn has_import_from(body: &Vec<Stmt>, source: &str) -> (r: bool)
    ensures
        r == (find_import(stmts_view(body@), source@, 0) is Some),
{
    let ghost sv = stmts_view(body@);
    let mut i: usize = 0;
    proof {
        lemma_stmts_view(body@);
    }
    while i < body.len()
        invariant
            i <= body@.len(),
            sv == stmts_view(body@),
            sv.len() == body@.len(),
            find_import(sv, source@, 0) == find_import(sv, source@, i as int),
        decreases body@.len() - i,
    {
        proof {
            lemma_stmts_view(body@);
        }
        let found = match &body[i] {
            Stmt::Import { names: _, source: src } => str_eq(src.as_str(), source),
            _ => false,
        };
        if found {
            proof {
                assert(find_import(sv, source@, i as int) == Some(i as int));
            }
            return true;
        }
        proof {
            match sv[i as int] {
                StmtV::Import { names: _, source: src } => {
                    assert(src != source@);
                },
                _ => {},
            }
            assert(find_import(sv, source@, i as int) == find_import(
                sv,
                source@,
                i + 1,
            ));
        }
        i += 1;
    }
    proof {
        assert(find_import(sv, source@, body@.len() as int) is None);
    }
    false
}

/// Ensure one import of `name` from `source` in the statement list: merge
/// into the first import of that source, or insert a new declaration after
/// a leading directive.
pub(crate) fn ensure_import_exec(out: &mut Vec<Stmt>, name: &str, source: &str)
    ensures
        stmts_view(final(out)@) == ensure_import(stmts_view(old(out)@), name@, source@),
{
    let ghost sv = stmts_view(old(out)@);
    let mut i: usize = 0;
    proof {
        lemma_stmts_view(out@);
    }
    while i < out.len()
        invariant
            i <= out@.len(),
            out@ == old(out)@,
            sv == stmts_view(out@),
            sv.len() == out@.len(),
            find_import(sv, source@, 0) == find_import(sv, source@, i as int),
        decreases out@.len() - i,
    {
        proof {
            lemma_stmts_view(out@);
        }
        let found = match &out[i] {
            Stmt::Import { names: _, source: src } => str_eq(src.as_str(), source),
            _ => false,
        };
        if found {
            proof {
                assert(find_import(sv, source@, i as int) == Some(i as int));
            }
            match &out[i] {
                Stmt::Import { names, source: src } => {
                    let mut ns2 = clone_strings(names);
                    proof {
                        assert(strings_view(ns2@).len() == ns2@.len());
                        assert(strings_view(names@).len() == names@.len());
                    }
                    let present = {
                        let mut h = false;
                        let mut j: usize = 0;
                        while j < ns2.len()
                            invariant
                                j <= ns2@.len(),
                                strings_view(ns2@) == strings_view(names@),
                                ns2@.len() == names@.len(),
                                h == exists|q: int|
                                    0 <= q < j && #[trigger] strings_view(ns2@)[q] == name@,
                            decreases ns2@.len() - j,
                        {
                            if !h && str_eq(ns2[j].as_str(), name) {
                                proof {
                                    assert(strings_view(ns2@)[j as int] == name@);
                                }
                                h = true;
                            }
                            proof {
                                assert(strings_view(ns2@)[j as int] == ns2@[j as int]@);
                            }
                            j += 1;
                        }
                        h
                    };
                    proof {
                        if present {
                            let q = choose|q: int|
                                0 <= q < strings_view(ns2@).len() && strings_view(ns2@)[q]
                                    == name@;
                            assert(strings_view(ns2@).contains(name@));
                        } else {
                            assert(!strings_view(ns2@).contains(name@)) by {
                                if strings_view(ns2@).contains(name@) {
                                    let q = choose|q: int|
                                        0 <= q < strings_view(ns2@).len() && strings_view(
                                            ns2@,
                                        )[q] == name@;
                                    assert(strings_view(ns2@)[q] != name@);
                                }
                            }
                        }
                    }
                    if !present {
                        ns2.push(String::from_str(name));
                        proof {
                            assert(strings_view(ns2@) =~= add_name(
                                sv[i as int]->Import_names,
                                name@,
                            ));
                        }
                    } else {
                        proof {
                            assert(strings_view(ns2@) =~= add_name(
                                sv[i as int]->Import_names,
                                name@,
                            ));
                        }
                    }
                    let st2 = Stmt::Import { names: ns2, source: String::from_str(source) };
                    proof {
                        assert(stmt_view(st2) == (StmtV::Import {
                            names: add_name(sv[i as int]->Import_names, name@),
                            source: source@,
                        }));
                    }
                    out.set(i, st2);
                    proof {
                        lemma_stmts_view(out@);
                        lemma_stmts_view(old(out)@);
                        assert(stmts_view(out@) =~= ensure_import(sv, name@, source@));
                    }
                    return ;
                },
                _ => {
                    proof {
                        assert(false);
                    }
                },
            }
        }
        proof {
            match sv[i as int] {
                StmtV::Import { names: _, source: src } => {
                    assert(src != source@);
                },
                _ => {},
            }
            assert(find_import(sv, source@, i as int) == find_import(
                sv,
                source@,
                i + 1,
            ));
        }
        i += 1;
    }
    proof {
        assert(find_import(sv, source@, out@.len() as int) is None);
        assert(find_import(sv, source@, 0) is None);
    }
    let at: usize = if out.len() > 0 && is_directive_exec(&out[0]) {
        1
    } else {
        0
    };
    proof {
        lemma_stmts_view(out@);
        if out@.len() > 0 {
            assert(stmts_view(out@)[0] == stmt_view(out@[0]));
        }
    }
    let mut ns: Vec<String> = Vec::new();
    ns.push(String::from_str(name));
    let st = Stmt::Import { names: ns, source: String::from_str(source) };
    proof {
        assert(strings_view(ns@) =~= seq![name@]);
    }
    out.insert(at, st);
    proof {
        lemma_stmts_view(out@);
        lemma_stmts_view(old(out)@);
        assert(stmts_view(out@) =~= sv.insert(at as int, StmtV::Import {
            names: seq![name@],
            source: source@,
        }));
    }
}

/// The applier: for every function in the registry, ensure the translation
/// binding its mode calls for; ensure the client directive under the
/// `nextjs` framework in client mode; and ensure the accessor's import,
/// merged rather than duplicated. Purely structural tree edits.
pub fn apply_translations_to_ast(
    ast: &mut Module,
    modified_functions: &Vec<String>,
    config: &ApplierConfig,
)
    ensures
        final(ast)@ == apply_module(old(ast)@, modified_functions.deep_view(), config@),
{
    let ghost bv = stmts_view(old(ast).body@);
    let ghost nv = modified_functions.deep_view();
    let mut out: Vec<Stmt> = Vec::new();
    let mut i: usize = 0;
    proof {
        lemma_stmts_view(ast.body@);
    }
    while i < ast.body.len()
        invariant
            i <= ast.body@.len(),
            ast.body@ == old(ast).body@,
            bv == stmts_view(ast.body@),
            bv.len() == ast.body@.len(),
            nv == modified_functions.deep_view(),
            out@.len() == i,
            forall|j: int|
                0 <= j < i ==> stmt_view(#[trigger] out@[j]) == apply_stmt(
                    bv[j],
                    nv,
                    config@,
                ),
        decreases ast.body@.len() - i,
    {
        proof {
            lemma_stmts_view(ast.body@);
        }
        let ns = apply_stmt_exec(&ast.body[i], modified_functions, config);
        out.push(ns);
        i += 1;
    }
    proof {
        lemma_apply_stmts(bv, nv, config@);
        lemma_stmts_view(out@);
        assert(stmts_view(out@) =~= apply_stmts(bv, nv, config@));
    }
    let ghost applied = apply_stmts(bv, nv, config@);
    if is_nextjs_exec(config) && is_client_exec(config) {
        let present = if out.len() > 0 {
            is_directive_exec(&out[0])
        } else {
            false
        };
        proof {
            lemma_stmts_view(out@);
            if out@.len() > 0 {
                assert(stmts_view(out@)[0] == stmt_view(out@[0]));
            }
        }
        if !present {
            let ghost out0 = out@;
            out.insert(0, make_directive());
            proof {
                lemma_stmts_view(out@);
                lemma_stmts_view(out0);
                assert(stmts_view(out@) =~= seq![directive_stmt()] + applied);
            }
        }
    }
    proof {
        assert(stmts_view(out@) == with_directive(applied, config@));
    }
    let ghost directed = with_directive(applied, config@);
    let run_import = modified_functions.len() > 0;
    if run_import {
        if is_client_exec(config) {
            ensure_import_exec(
                &mut out,
                "useTranslation",
                config.translation_import_source.as_str(),
            );
        } else if is_server_exec(config) {
            let fname = server_fn_of(config);
            ensure_import_exec(
                &mut out,
                fname.as_str(),
                config.translation_import_source.as_str(),
            );
        }
    }
    proof {
        assert(stmts_view(out@) == apply_imports(directed, nv, config@));
    }
    ast.body = out;
}

} // verus!
