//! The constant propagator.
//!
//! One traversal of the tree collects every statically-evaluable `const`
//! single-name binding, together with the line range of the function body
//! that declares it (the whole module for top-level bindings).  A reference
//! is then resolved as a point query: among the bindings of that name whose
//! range holds the referring line, the one with the smallest range wins, and
//! of two equally small the later declaration wins.  Child scopes thus
//! shadow parent scopes, and a later `const` of the same name in the same
//! scope overwrites an earlier one.
//!
//! Evaluable forms: a string literal; a template literal whose
//! interpolations all evaluate; binary `+` of two evaluable operands; a
//! reference to a collected binding; and any of these inside parentheses or
//! TypeScript cast/assertion wrappers.

use vstd::prelude::*;

use crate::ast::Arg;
use crate::ast::ArrowBody;
use crate::ast::Decl;
use crate::ast::Expr;
use crate::ast::ForInit;
use crate::ast::JsxChild;
use crate::ast::JsxElem;
use crate::ast::Module;
use crate::ast::ModuleItem;
use crate::ast::ObjectPart;
use crate::ast::Pat;
use crate::ast::Stmt;
use crate::ast::SwitchCase;
use crate::ast::VarDecl;
use crate::ast::VarDeclarator;

verus! {

/// Mathematical model of a collected constant binding.
pub struct SBinding {
    pub name: Seq<char>,
    pub value: Seq<char>,
    pub start_line: u32,
    pub end_line: u32,
}

/// A collected constant: its name, its value, and the line range of the
/// scope that declared it.
pub struct ConstBinding {
    pub name: String,
    pub value: String,
    pub start_line: u32,
    pub end_line: u32,
}

pub open spec fn cb_view(b: ConstBinding) -> SBinding {
    SBinding { name: b.name@, value: b.value@, start_line: b.start_line, end_line: b.end_line }
}

pub open spec fn cb_views(s: Seq<ConstBinding>) -> Seq<SBinding>
    decreases s,
{
    if s.len() == 0 {
        Seq::empty()
    } else {
        cb_views(s.drop_last()).push(cb_view(s.last()))
    }
}

pub broadcast proof fn lemma_cb_views_index(s: Seq<ConstBinding>, i: int)
    requires
        0 <= i < s.len(),
    ensures
        #[trigger] cb_views(s)[i] == cb_view(s[i]),
        cb_views(s).len() == s.len(),
    decreases s,
{
    if s.len() > 0 {
        if i < s.len() - 1 {
            lemma_cb_views_index(s.drop_last(), i);
        } else {
            lemma_cb_views_len(s.drop_last());
        }
    }
}

pub broadcast proof fn lemma_cb_views_len(s: Seq<ConstBinding>)
    ensures
        #[trigger] cb_views(s).len() == s.len(),
    decreases s,
{
    if s.len() > 0 {
        lemma_cb_views_len(s.drop_last());
    }
}

pub open spec fn b_matches(b: SBinding, name: Seq<char>, line: u32) -> bool {
    b.name == name && b.start_line <= line && line <= b.end_line
}

pub open spec fn b_size(b: SBinding) -> int {
    b.end_line - b.start_line
}

/// The binding that governs a reference to `name` at `line`: the matching
/// binding with the smallest range, later declarations winning ties.
pub open spec fn sp_best(bs: Seq<SBinding>, name: Seq<char>, line: u32) -> Option<SBinding>
    decreases bs.len(),
{
    if bs.len() == 0 {
        None
    } else {
        let rest = sp_best(bs.drop_last(), name, line);
        let b = bs.last();
        if b_matches(b, name, line) {
            match rest {
                Some(r0) => if b_size(b) <= b_size(r0) {
                    Some(b)
                } else {
                    Some(r0)
                },
                None => Some(b),
            }
        } else {
            rest
        }
    }
}

/// The constant value a reference to `name` at `line` resolves to.
pub open spec fn sp_query(bs: Seq<SBinding>, name: Seq<char>, line: u32) -> Option<Seq<char>> {
    match sp_best(bs, name, line) {
        Some(b) => Some(b.value),
        None => None,
    }
}

/// Looks `name` up at `line`.
pub fn query(bs: &Vec<ConstBinding>, name: &String, line: u32) -> (r: Option<String>)
    ensures
        match r {
            Some(v) => sp_query(cb_views(bs@), name@, line) == Some(v@),
            None => sp_query(cb_views(bs@), name@, line) is None,
        },
{
    let ghost bsv = cb_views(bs@);
    let mut best: Option<usize> = None;
    let mut i: usize = 0;
    proof {
        lemma_cb_views_len(bs@);
        assert(bsv.take(0) =~= Seq::<SBinding>::empty());
    }
    while i < bs.len()
        invariant
            i <= bs@.len(),
            bsv == cb_views(bs@),
            bsv.len() == bs@.len(),
            match best {
                Some(bi) => {
                    &&& bi < i
                    &&& sp_best(bsv.take(i as int), name@, line) == Some(bsv[bi as int])
                    &&& b_matches(bsv[bi as int], name@, line)
                },
                None => sp_best(bsv.take(i as int), name@, line) is None,
            },
        decreases bs@.len() - i,
    {
        proof {
            lemma_cb_views_index(bs@, i as int);
            assert(bsv.take(i as int + 1).drop_last() =~= bsv.take(i as int));
            assert(bsv.take(i as int + 1).last() == bsv[i as int]);
        }
        let b = &bs[i];
        if b.name == *name && b.start_line <= line && line <= b.end_line {
            let replace = match best {
                Some(bi) => {
                    let cur = &bs[bi];
                    proof {
                        lemma_cb_views_index(bs@, bi as int);
                    }
                    b.end_line - b.start_line <= cur.end_line - cur.start_line
                },
                None => true,
            };
            if replace {
                best = Some(i);
            }
        }
        i += 1;
    }
    proof {
        assert(bsv.take(bs@.len() as int) =~= bsv);
    }
    match best {
        Some(bi) => {
            proof {
                lemma_cb_views_index(bs@, bi as int);
            }
            Some(bs[bi].value.clone())
        },
        None => None,
    }
}

/// The concatenation of the quasi texts.
pub open spec fn sp_quasis_cat(qs: Seq<String>) -> Seq<char>
    decreases qs.len(),
{
    if qs.len() == 0 {
        Seq::empty()
    } else {
        qs.first()@ + sp_quasis_cat(qs.drop_first())
    }
}

/// The statically-known string value of `e` under the bindings `bs`.
pub open spec fn sp_eval(e: Expr, bs: Seq<SBinding>) -> Option<Seq<char>>
    decreases e, 0int,
{
    match e {
        Expr::StrLit { value } => Some(value@),
        Expr::Tpl { quasis, exprs } => sp_eval_tpl(quasis@, exprs@, bs),
        Expr::Ident { name, line } => sp_query(bs, name@, line),
        Expr::Add { left, right } => match (sp_eval(*left, bs), sp_eval(*right, bs)) {
            (Some(a), Some(b)) => Some(a + b),
            _ => None,
        },
        Expr::Wrap { inner } => sp_eval(*inner, bs),
        _ => None,
    }
}

/// A template literal's value: the quasis interleaved with the values of
/// the interpolations, `None` as soon as one does not evaluate.
pub open spec fn sp_eval_tpl(qs: Seq<String>, es: Seq<Expr>, bs: Seq<SBinding>) -> Option<
    Seq<char>,
>
    decreases es, 1int,
{
    if es.len() == 0 {
        Some(sp_quasis_cat(qs))
    } else {
        let q0: Seq<char> = if qs.len() > 0 {
            qs.first()@
        } else {
            Seq::empty()
        };
        let qrest = if qs.len() > 0 {
            qs.drop_first()
        } else {
            qs
        };
        match sp_eval(es.first(), bs) {
            None => None,
            Some(v) => match sp_eval_tpl(qrest, es.drop_first(), bs) {
                None => None,
                Some(rest) => Some(q0 + v + rest),
            },
        }
    }
}

/// Evaluates `e` under the bindings `bs`.
pub fn eval_expr(e: &Expr, bs: &Vec<ConstBinding>) -> (r: Option<String>)
    ensures
        match r {
            Some(v) => sp_eval(*e, cb_views(bs@)) == Some(v@),
            None => sp_eval(*e, cb_views(bs@)) is None,
        },
    decreases *e, 0int,
{
    match e {
        Expr::StrLit { value } => Some(value.clone()),
        Expr::Tpl { quasis, exprs } => {
            proof {
                assert(quasis@.skip(0) =~= quasis@);
                assert(exprs@.skip(0) =~= exprs@);
            }
            eval_tpl(quasis, exprs, 0, 0, bs)
        },
        Expr::Ident { name, line } => query(bs, name, *line),
        Expr::Add { left, right } => {
            let a = eval_expr(left, bs);
            let b = eval_expr(right, bs);
            match (a, b) {
                (Some(a), Some(b)) => Some(a.concat(b.as_str())),
                _ => None,
            }
        },
        Expr::Wrap { inner } => eval_expr(inner, bs),
        _ => None,
    }
}

fn eval_tpl(quasis: &Vec<String>, exprs: &Vec<Expr>, qi: usize, ei: usize, bs: &Vec<ConstBinding>)
    -> (r: Option<String>)
    requires
        qi <= quasis@.len(),
        ei <= exprs@.len(),
    ensures
        match r {
            Some(v) => sp_eval_tpl(quasis@.skip(qi as int), exprs@.skip(ei as int), cb_views(bs@))
                == Some(v@),
            None => sp_eval_tpl(
                quasis@.skip(qi as int),
                exprs@.skip(ei as int),
                cb_views(bs@),
            ) is None,
        },
    decreases *exprs, exprs@.len() - ei,
{
    let ghost qsuf = quasis@.skip(qi as int);
    let ghost esuf = exprs@.skip(ei as int);
    if ei >= exprs.len() {
        let mut out = String::new();
        let mut k = qi;
        proof {
            assert(esuf.len() == 0);
            assert(quasis@.skip(qi as int) =~= quasis@.skip(k as int));
        }
        while k < quasis.len()
            invariant
                qi <= k <= quasis@.len(),
                sp_quasis_cat(quasis@.skip(qi as int)) == out@ + sp_quasis_cat(
                    quasis@.skip(k as int),
                ),
            decreases quasis@.len() - k,
        {
            proof {
                assert(quasis@.skip(k as int).first() == quasis@[k as int]);
                assert(quasis@.skip(k as int).drop_first() =~= quasis@.skip(k as int + 1));
            }
            out.append(quasis[k].as_str());
            k += 1;
        }
        proof {
            assert(quasis@.skip(k as int).len() == 0);
            assert(out@ + sp_quasis_cat(quasis@.skip(k as int)) =~= out@);
        }
        Some(out)
    } else {
        proof {
            assert(esuf.first() == exprs@[ei as int]);
            assert(esuf.drop_first() =~= exprs@.skip(ei as int + 1));
            assert(decreases_to!(*exprs => exprs@[ei as int]));
        }
        let q0: String = if qi < quasis.len() {
            proof {
                assert(qsuf.first() == quasis@[qi as int]);
                assert(qsuf.drop_first() =~= quasis@.skip(qi as int + 1));
            }
            quasis[qi].clone()
        } else {
            proof {
                assert(qsuf.len() == 0);
                assert(quasis@.skip(qi as int) =~= quasis@.skip(qi as int));
            }
            String::new()
        };
        let qin: usize = if qi < quasis.len() {
            qi + 1
        } else {
            qi
        };
        match eval_expr(&exprs[ei], bs) {
            None => None,
            Some(v) => match eval_tpl(quasis, exprs, qin, ei + 1, bs) {
                None => None,
                Some(rest) => {
                    let mut out = q0;
                    out.append(v.as_str());
                    out.append(rest.as_str());
                    proof {
                        if qsuf.len() == 0 {
                            assert(quasis@.skip(qin as int) =~= qsuf);
                        }
                    }
                    Some(out)
                },
            },
        }
    }
}


// ---------------------------------------------------------------------------
// Collection: one traversal gathering every evaluable `const` binding.
// ---------------------------------------------------------------------------

/// Bindings collected from the whole module, in traversal order.
pub open spec fn cc_module(m: Module) -> Seq<SBinding> {
    cc_items(m.body@, Seq::empty())
}

pub open spec fn cc_items(items: Seq<ModuleItem>, acc: Seq<SBinding>) -> Seq<SBinding>
    decreases items, 1int,
{
    if items.len() == 0 {
        acc
    } else {
        cc_items(items.drop_first(), cc_item(items.first(), acc))
    }
}

pub open spec fn cc_item(item: ModuleItem, acc: Seq<SBinding>) -> Seq<SBinding>
    decreases item, 2int,
{
    match item {
        ModuleItem::Stmt(s) => cc_stmt(s, 0, u32::MAX, acc),
        ModuleItem::ExportDecl(d) => cc_decl(d, 0, u32::MAX, acc),
        ModuleItem::ExportDefaultExpr(e) => cc_expr(*e, 0, u32::MAX, acc),
        ModuleItem::ExportDefaultFunc { body } => match body {
            Some(b) => cc_stmts(b.stmts@, b.start_line, b.end_line, acc),
            None => acc,
        },
        ModuleItem::Other => acc,
    }
}

pub open spec fn cc_stmts(ss: Seq<Stmt>, sc_s: u32, sc_e: u32, acc: Seq<SBinding>) -> Seq<SBinding>
    decreases ss, 1int,
{
    if ss.len() == 0 {
        acc
    } else {
        cc_stmts(ss.drop_first(), sc_s, sc_e, cc_stmt(ss.first(), sc_s, sc_e, acc))
    }
}

pub open spec fn cc_stmt(s: Stmt, sc_s: u32, sc_e: u32, acc: Seq<SBinding>) -> Seq<SBinding>
    decreases s, 2int,
{
    match s {
        Stmt::Expr { expr } => cc_expr(*expr, sc_s, sc_e, acc),
        Stmt::Decl(d) => cc_decl(d, sc_s, sc_e, acc),
        Stmt::Return { arg } => match arg {
            Some(e) => cc_expr(*e, sc_s, sc_e, acc),
            None => acc,
        },
        Stmt::Block { stmts } => cc_stmts(stmts@, sc_s, sc_e, acc),
        Stmt::If { test, cons, alt } => {
            let a1 = cc_expr(*test, sc_s, sc_e, acc);
            let a2 = cc_stmt(*cons, sc_s, sc_e, a1);
            match alt {
                Some(a) => cc_stmt(*a, sc_s, sc_e, a2),
                None => a2,
            }
        },
        Stmt::Switch { disc, cases } => cc_cases(cases@, sc_s, sc_e, cc_expr(*disc, sc_s, sc_e, acc)),
        Stmt::For { init, test, update, body } => {
            let a1 = match init {
                Some(ForInit::Var(vd)) => cc_var(vd, sc_s, sc_e, acc),
                Some(ForInit::Expr(e)) => cc_expr(*e, sc_s, sc_e, acc),
                None => acc,
            };
            let a2 = match test {
                Some(e) => cc_expr(*e, sc_s, sc_e, a1),
                None => a1,
            };
            let a3 = match update {
                Some(e) => cc_expr(*e, sc_s, sc_e, a2),
                None => a2,
            };
            cc_stmt(*body, sc_s, sc_e, a3)
        },
        Stmt::ForEach { left, right, body } => {
            let a1 = match left {
                Some(vd) => cc_var(vd, sc_s, sc_e, acc),
                None => acc,
            };
            let a2 = cc_expr(*right, sc_s, sc_e, a1);
            cc_stmt(*body, sc_s, sc_e, a2)
        },
        Stmt::While { test, body } => cc_stmt(*body, sc_s, sc_e, cc_expr(*test, sc_s, sc_e, acc)),
        Stmt::DoWhile { body, test } => cc_expr(*test, sc_s, sc_e, cc_stmt(*body, sc_s, sc_e, acc)),
        Stmt::Try { block, handler, finalizer } => {
            let a1 = cc_stmts(block@, sc_s, sc_e, acc);
            let a2 = match handler {
                Some(h) => cc_stmts(h@, sc_s, sc_e, a1),
                None => a1,
            };
            match finalizer {
                Some(f) => cc_stmts(f@, sc_s, sc_e, a2),
                None => a2,
            }
        },
        Stmt::Other => acc,
    }
}

pub open spec fn cc_cases(cs: Seq<SwitchCase>, sc_s: u32, sc_e: u32, acc: Seq<SBinding>) -> Seq<
    SBinding,
>
    decreases cs, 1int,
{
    if cs.len() == 0 {
        acc
    } else {
        let c = cs.first();
        let a1 = match c.test {
            Some(t) => cc_expr(*t, sc_s, sc_e, acc),
            None => acc,
        };
        let a2 = cc_stmts(c.cons@, sc_s, sc_e, a1);
        cc_cases(cs.drop_first(), sc_s, sc_e, a2)
    }
}

pub open spec fn cc_decl(d: Decl, sc_s: u32, sc_e: u32, acc: Seq<SBinding>) -> Seq<SBinding>
    decreases d, 3int,
{
    match d {
        Decl::Var(vd) => cc_var(vd, sc_s, sc_e, acc),
        Decl::Func { body } => match body {
            Some(b) => cc_stmts(b.stmts@, b.start_line, b.end_line, acc),
            None => acc,
        },
        Decl::Other => acc,
    }
}

pub open spec fn cc_var(vd: VarDecl, sc_s: u32, sc_e: u32, acc: Seq<SBinding>) -> Seq<SBinding>
    decreases vd, 2int,
{
    cc_var_visit(vd.decls@, sc_s, sc_e, cc_var_collect(vd.decls@, vd.is_const, sc_s, sc_e, acc))
}

/// Records the evaluable `const` single-name bindings, each initializer
/// evaluated under the bindings collected so far.
pub open spec fn cc_var_collect(
    ds: Seq<VarDeclarator>,
    is_const: bool,
    sc_s: u32,
    sc_e: u32,
    acc: Seq<SBinding>,
) -> Seq<SBinding>
    decreases ds, 1int,
{
    if ds.len() == 0 {
        acc
    } else {
        let d = ds.first();
        let a1 = if is_const {
            match d.name {
                Pat::Ident { name } => match d.init {
                    Some(e) => match sp_eval(*e, acc) {
                        Some(v) => acc.push(
                            SBinding { name: name@, value: v, start_line: sc_s, end_line: sc_e },
                        ),
                        None => acc,
                    },
                    None => acc,
                },
                _ => acc,
            }
        } else {
            acc
        };
        cc_var_collect(ds.drop_first(), is_const, sc_s, sc_e, a1)
    }
}

/// Walks the initializers for nested functions and expressions.
pub open spec fn cc_var_visit(
    ds: Seq<VarDeclarator>,
    sc_s: u32,
    sc_e: u32,
    acc: Seq<SBinding>,
) -> Seq<SBinding>
    decreases ds, 1int,
{
    if ds.len() == 0 {
        acc
    } else {
        let a1 = match ds.first().init {
            Some(e) => cc_expr(*e, sc_s, sc_e, acc),
            None => acc,
        };
        cc_var_visit(ds.drop_first(), sc_s, sc_e, a1)
    }
}

pub open spec fn cc_exprs(es: Seq<Expr>, sc_s: u32, sc_e: u32, acc: Seq<SBinding>) -> Seq<SBinding>
    decreases es, 1int,
{
    if es.len() == 0 {
        acc
    } else {
        cc_exprs(es.drop_first(), sc_s, sc_e, cc_expr(es.first(), sc_s, sc_e, acc))
    }
}

pub open spec fn cc_args(args: Seq<Arg>, sc_s: u32, sc_e: u32, acc: Seq<SBinding>) -> Seq<SBinding>
    decreases args, 1int,
{
    if args.len() == 0 {
        acc
    } else {
        cc_args(args.drop_first(), sc_s, sc_e, cc_expr(args.first().expr, sc_s, sc_e, acc))
    }
}

pub open spec fn cc_parts(ps: Seq<ObjectPart>, sc_s: u32, sc_e: u32, acc: Seq<SBinding>) -> Seq<
    SBinding,
>
    decreases ps, 1int,
{
    if ps.len() == 0 {
        acc
    } else {
        let a1 = match ps.first() {
            ObjectPart::Value(e) => cc_expr(e, sc_s, sc_e, acc),
            ObjectPart::Spread(e) => cc_expr(e, sc_s, sc_e, acc),
            ObjectPart::Other => acc,
        };
        cc_parts(ps.drop_first(), sc_s, sc_e, a1)
    }
}

pub open spec fn cc_expr(e: Expr, sc_s: u32, sc_e: u32, acc: Seq<SBinding>) -> Seq<SBinding>
    decreases e, 0int,
{
    match e {
        Expr::Call { callee, args, line } => {
            let a1 = cc_args(args@, sc_s, sc_e, acc);
            match callee {
                Some(c) => cc_expr(*c, sc_s, sc_e, a1),
                None => a1,
            }
        },
        Expr::Arrow { body } => match body {
            ArrowBody::Block(b) => cc_stmts(b.stmts@, b.start_line, b.end_line, acc),
            ArrowBody::Expr { expr, start_line, end_line } => cc_expr(*expr, start_line, end_line, acc),
        },
        Expr::Func { body } => match body {
            Some(b) => cc_stmts(b.stmts@, b.start_line, b.end_line, acc),
            None => acc,
        },
        Expr::Wrap { inner } => cc_expr(*inner, sc_s, sc_e, acc),
        Expr::Add { left, right } => cc_expr(*right, sc_s, sc_e, cc_expr(*left, sc_s, sc_e, acc)),
        Expr::BinOther { left, right } => cc_expr(
            *right,
            sc_s,
            sc_e,
            cc_expr(*left, sc_s, sc_e, acc),
        ),
        Expr::Cond { test, cons, alt } => cc_expr(
            *alt,
            sc_s,
            sc_e,
            cc_expr(*cons, sc_s, sc_e, cc_expr(*test, sc_s, sc_e, acc)),
        ),
        Expr::Assign { right } => cc_expr(*right, sc_s, sc_e, acc),
        Expr::Array { elems } => cc_exprs(elems@, sc_s, sc_e, acc),
        Expr::Object { parts } => cc_parts(parts@, sc_s, sc_e, acc),
        Expr::Tpl { quasis, exprs } => cc_exprs(exprs@, sc_s, sc_e, acc),
        Expr::TaggedTpl { tag, exprs } => cc_exprs(
            exprs@,
            sc_s,
            sc_e,
            cc_expr(*tag, sc_s, sc_e, acc),
        ),
        Expr::Comma { exprs } => cc_exprs(exprs@, sc_s, sc_e, acc),
        Expr::Member { obj, prop, computed } => {
            let a1 = cc_expr(*obj, sc_s, sc_e, acc);
            match computed {
                Some(c) => cc_expr(*c, sc_s, sc_e, a1),
                None => a1,
            }
        },
        Expr::Await { inner } => cc_expr(*inner, sc_s, sc_e, acc),
        Expr::Yield { inner } => match inner {
            Some(i) => cc_expr(*i, sc_s, sc_e, acc),
            None => acc,
        },
        Expr::Unary { inner } => cc_expr(*inner, sc_s, sc_e, acc),
        Expr::Jsx(el) => cc_jsx_elem(*el, sc_s, sc_e, acc),
        Expr::JsxFrag { children } => cc_children(children@, sc_s, sc_e, acc),
        _ => acc,
    }
}

pub open spec fn cc_jsx_elem(el: JsxElem, sc_s: u32, sc_e: u32, acc: Seq<SBinding>) -> Seq<SBinding>
    decreases el, 1int,
{
    cc_children(el.children@, sc_s, sc_e, cc_exprs(el.attrs@, sc_s, sc_e, acc))
}

pub open spec fn cc_children(cs: Seq<JsxChild>, sc_s: u32, sc_e: u32, acc: Seq<SBinding>) -> Seq<
    SBinding,
>
    decreases cs, 1int,
{
    if cs.len() == 0 {
        acc
    } else {
        cc_children(cs.drop_first(), sc_s, sc_e, cc_child(cs.first(), sc_s, sc_e, acc))
    }
}

pub open spec fn cc_child(c: JsxChild, sc_s: u32, sc_e: u32, acc: Seq<SBinding>) -> Seq<SBinding>
    decreases c, 2int,
{
    match c {
        JsxChild::Container { expr, span, expr_span } => match expr {
            Some(e) => cc_expr(*e, sc_s, sc_e, acc),
            None => acc,
        },
        JsxChild::Elem(el) => cc_jsx_elem(*el, sc_s, sc_e, acc),
        JsxChild::Frag { children } => cc_children(children@, sc_s, sc_e, acc),
        _ => acc,
    }
}


/// Collects every evaluable `const` binding of the module, in traversal
/// order, each with the line range of the scope that declares it.
pub fn collect_consts(m: &Module) -> (r: Vec<ConstBinding>)
    ensures
        cb_views(r@) == cc_module(*m),
{
    proof {
        assert(cb_views(Seq::<ConstBinding>::empty()) =~= Seq::<SBinding>::empty());
    }
    x_items(&m.body, Vec::new())
}

fn x_items(items: &Vec<ModuleItem>, acc: Vec<ConstBinding>) -> (r: Vec<ConstBinding>)
    ensures
        cb_views(r@) == cc_items(items@, cb_views(acc@)),
    decreases *items, 1int,
{
    let mut acc = acc;
    let ghost acc0 = cb_views(acc@);
    let mut i: usize = 0;
    proof {
        assert(items@.skip(0) =~= items@);
    }
    while i < items.len()
        invariant
            i <= items@.len(),
            cc_items(items@, acc0) == cc_items(items@.skip(i as int), cb_views(acc@)),
        decreases items@.len() - i,
    {
        proof {
            assert(items@.skip(i as int).first() == items@[i as int]);
            assert(items@.skip(i as int).drop_first() =~= items@.skip(i as int + 1));
            assert(decreases_to!(*items => items@[i as int]));
        }
        acc = x_item(&items[i], acc);
        i += 1;
    }
    proof {
        assert(items@.skip(i as int).len() == 0);
    }
    acc
}

fn x_item(item: &ModuleItem, acc: Vec<ConstBinding>) -> (r: Vec<ConstBinding>)
    ensures
        cb_views(r@) == cc_item(*item, cb_views(acc@)),
    decreases *item, 2int,
{
    match item {
        ModuleItem::Stmt(s) => x_stmt(s, 0, u32::MAX, acc),
        ModuleItem::ExportDecl(d) => x_decl(d, 0, u32::MAX, acc),
        ModuleItem::ExportDefaultExpr(e) => x_expr(e, 0, u32::MAX, acc),
        ModuleItem::ExportDefaultFunc { body } => match body {
            Some(b) => x_stmts(&b.stmts, b.start_line, b.end_line, acc),
            None => acc,
        },
        ModuleItem::Other => acc,
    }
}

fn x_stmts(ss: &Vec<Stmt>, sc_s: u32, sc_e: u32, acc: Vec<ConstBinding>) -> (r: Vec<ConstBinding>)
    ensures
        cb_views(r@) == cc_stmts(ss@, sc_s, sc_e, cb_views(acc@)),
    decreases *ss, 1int,
{
    let mut acc = acc;
    let ghost acc0 = cb_views(acc@);
    let mut i: usize = 0;
    proof {
        assert(ss@.skip(0) =~= ss@);
    }
    while i < ss.len()
        invariant
            i <= ss@.len(),
            cc_stmts(ss@, sc_s, sc_e, acc0) == cc_stmts(ss@.skip(i as int), sc_s, sc_e, cb_views(acc@)),
        decreases ss@.len() - i,
    {
        proof {
            assert(ss@.skip(i as int).first() == ss@[i as int]);
            assert(ss@.skip(i as int).drop_first() =~= ss@.skip(i as int + 1));
            assert(decreases_to!(*ss => ss@[i as int]));
        }
        acc = x_stmt(&ss[i], sc_s, sc_e, acc);
        i += 1;
    }
    proof {
        assert(ss@.skip(i as int).len() == 0);
    }
    acc
}

#[verifier::rlimit(60)]
fn x_stmt(s: &Stmt, sc_s: u32, sc_e: u32, acc: Vec<ConstBinding>) -> (r: Vec<ConstBinding>)
    ensures
        cb_views(r@) == cc_stmt(*s, sc_s, sc_e, cb_views(acc@)),
    decreases *s, 2int,
{
    match s {
        Stmt::Expr { expr } => x_expr(expr, sc_s, sc_e, acc),
        Stmt::Decl(d) => x_decl(d, sc_s, sc_e, acc),
        Stmt::Return { arg } => match arg {
            Some(e) => x_expr(e, sc_s, sc_e, acc),
            None => acc,
        },
        Stmt::Block { stmts } => x_stmts(stmts, sc_s, sc_e, acc),
        Stmt::If { test, cons, alt } => {
            let a1 = x_expr(test, sc_s, sc_e, acc);
            let a2 = x_stmt(cons, sc_s, sc_e, a1);
            match alt {
                Some(a) => x_stmt(a, sc_s, sc_e, a2),
                None => a2,
            }
        },
        Stmt::Switch { disc, cases } => {
            let a1 = x_expr(disc, sc_s, sc_e, acc);
            x_cases(cases, sc_s, sc_e, a1)
        },
        Stmt::For { init, test, update, body } => {
            let a1 = match init {
                Some(ForInit::Var(vd)) => x_var(vd, sc_s, sc_e, acc),
                Some(ForInit::Expr(e)) => x_expr(e, sc_s, sc_e, acc),
                None => acc,
            };
            let a2 = match test {
                Some(e) => x_expr(e, sc_s, sc_e, a1),
                None => a1,
            };
            let a3 = match update {
                Some(e) => x_expr(e, sc_s, sc_e, a2),
                None => a2,
            };
            x_stmt(body, sc_s, sc_e, a3)
        },
        Stmt::ForEach { left, right, body } => {
            let a1 = match left {
                Some(vd) => x_var(vd, sc_s, sc_e, acc),
                None => acc,
            };
            let a2 = x_expr(right, sc_s, sc_e, a1);
            x_stmt(body, sc_s, sc_e, a2)
        },
        Stmt::While { test, body } => {
            let a1 = x_expr(test, sc_s, sc_e, acc);
            x_stmt(body, sc_s, sc_e, a1)
        },
        Stmt::DoWhile { body, test } => {
            let a1 = x_stmt(body, sc_s, sc_e, acc);
            x_expr(test, sc_s, sc_e, a1)
        },
        Stmt::Try { block, handler, finalizer } => {
            let a1 = x_stmts(block, sc_s, sc_e, acc);
            let a2 = match handler {
                Some(h) => x_stmts(h, sc_s, sc_e, a1),
                None => a1,
            };
            match finalizer {
                Some(f) => x_stmts(f, sc_s, sc_e, a2),
                None => a2,
            }
        },
        Stmt::Other => acc,
    }
}

fn x_cases(cs: &Vec<SwitchCase>, sc_s: u32, sc_e: u32, acc: Vec<ConstBinding>) -> (r: Vec<
    ConstBinding,
>)
    ensures
        cb_views(r@) == cc_cases(cs@, sc_s, sc_e, cb_views(acc@)),
    decreases *cs, 1int,
{
    let mut acc = acc;
    let ghost acc0 = cb_views(acc@);
    let mut i: usize = 0;
    proof {
        assert(cs@.skip(0) =~= cs@);
    }
    while i < cs.len()
        invariant
            i <= cs@.len(),
            cc_cases(cs@, sc_s, sc_e, acc0) == cc_cases(cs@.skip(i as int), sc_s, sc_e, cb_views(acc@)),
        decreases cs@.len() - i,
    {
        proof {
            assert(cs@.skip(i as int).first() == cs@[i as int]);
            assert(cs@.skip(i as int).drop_first() =~= cs@.skip(i as int + 1));
            assert(decreases_to!(*cs => cs@[i as int]));
        }
        let c = &cs[i];
        match &c.test {
            Some(t) => {
                acc = x_expr(t, sc_s, sc_e, acc);
            },
            None => {},
        }
        acc = x_stmts(&c.cons, sc_s, sc_e, acc);
        i += 1;
    }
    proof {
        assert(cs@.skip(i as int).len() == 0);
    }
    acc
}

fn x_decl(d: &Decl, sc_s: u32, sc_e: u32, acc: Vec<ConstBinding>) -> (r: Vec<ConstBinding>)
    ensures
        cb_views(r@) == cc_decl(*d, sc_s, sc_e, cb_views(acc@)),
    decreases *d, 3int,
{
    match d {
        Decl::Var(vd) => x_var(vd, sc_s, sc_e, acc),
        Decl::Func { body } => match body {
            Some(b) => x_stmts(&b.stmts, b.start_line, b.end_line, acc),
            None => acc,
        },
        Decl::Other => acc,
    }
}

fn x_var(vd: &VarDecl, sc_s: u32, sc_e: u32, acc: Vec<ConstBinding>) -> (r: Vec<ConstBinding>)
    ensures
        cb_views(r@) == cc_var(*vd, sc_s, sc_e, cb_views(acc@)),
    decreases *vd, 2int,
{
    let acc = x_var_collect(&vd.decls, vd.is_const, sc_s, sc_e, acc);
    x_var_visit(&vd.decls, sc_s, sc_e, acc)
}

fn x_var_collect(
    ds: &Vec<VarDeclarator>,
    is_const: bool,
    sc_s: u32,
    sc_e: u32,
    acc: Vec<ConstBinding>,
) -> (r: Vec<ConstBinding>)
    ensures
        cb_views(r@) == cc_var_collect(ds@, is_const, sc_s, sc_e, cb_views(acc@)),
    decreases *ds, 1int,
{
    let mut acc = acc;
    let ghost acc0 = cb_views(acc@);
    let mut i: usize = 0;
    proof {
        assert(ds@.skip(0) =~= ds@);
    }
    while i < ds.len()
        invariant
            i <= ds@.len(),
            cc_var_collect(ds@, is_const, sc_s, sc_e, acc0) == cc_var_collect(
                ds@.skip(i as int),
                is_const,
                sc_s,
                sc_e,
                cb_views(acc@),
            ),
        decreases ds@.len() - i,
    {
        proof {
            assert(ds@.skip(i as int).first() == ds@[i as int]);
            assert(ds@.skip(i as int).drop_first() =~= ds@.skip(i as int + 1));
        }
        let d = &ds[i];
        if is_const {
            match (&d.name, &d.init) {
                (Pat::Ident { name }, Some(e)) => {
                    match eval_expr(e, &acc) {
                        Some(v) => {
                            let ghost old_acc = acc@;
                            let b = ConstBinding {
                                name: name.clone(),
                                value: v,
                                start_line: sc_s,
                                end_line: sc_e,
                            };
                            acc.push(b);
                            proof {
                                assert(acc@.drop_last() =~= old_acc);
                                assert(cb_views(acc@) == cb_views(old_acc).push(
                                    cb_view(acc@.last()),
                                ));
                            }
                        },
                        None => {},
                    }
                },
                _ => {},
            }
        }
        i += 1;
    }
    proof {
        assert(ds@.skip(i as int).len() == 0);
    }
    acc
}

fn x_var_visit(ds: &Vec<VarDeclarator>, sc_s: u32, sc_e: u32, acc: Vec<ConstBinding>) -> (r: Vec<
    ConstBinding,
>)
    ensures
        cb_views(r@) == cc_var_visit(ds@, sc_s, sc_e, cb_views(acc@)),
    decreases *ds, 1int,
{
    let mut acc = acc;
    let ghost acc0 = cb_views(acc@);
    let mut i: usize = 0;
    proof {
        assert(ds@.skip(0) =~= ds@);
    }
    while i < ds.len()
        invariant
            i <= ds@.len(),
            cc_var_visit(ds@, sc_s, sc_e, acc0) == cc_var_visit(
                ds@.skip(i as int),
                sc_s,
                sc_e,
                cb_views(acc@),
            ),
        decreases ds@.len() - i,
    {
        proof {
            assert(ds@.skip(i as int).first() == ds@[i as int]);
            assert(ds@.skip(i as int).drop_first() =~= ds@.skip(i as int + 1));
            assert(decreases_to!(*ds => ds@[i as int]));
        }
        match &ds[i].init {
            Some(e) => {
                proof {
                    assert(decreases_to!(*ds => ds@[i as int].init));
                }
                acc = x_expr(e, sc_s, sc_e, acc);
            },
            None => {},
        }
        i += 1;
    }
    proof {
        assert(ds@.skip(i as int).len() == 0);
    }
    acc
}

fn x_exprs(es: &Vec<Expr>, sc_s: u32, sc_e: u32, acc: Vec<ConstBinding>) -> (r: Vec<ConstBinding>)
    ensures
        cb_views(r@) == cc_exprs(es@, sc_s, sc_e, cb_views(acc@)),
    decreases *es, 1int,
{
    let mut acc = acc;
    let ghost acc0 = cb_views(acc@);
    let mut i: usize = 0;
    proof {
        assert(es@.skip(0) =~= es@);
    }
    while i < es.len()
        invariant
            i <= es@.len(),
            cc_exprs(es@, sc_s, sc_e, acc0) == cc_exprs(es@.skip(i as int), sc_s, sc_e, cb_views(acc@)),
        decreases es@.len() - i,
    {
        proof {
            assert(es@.skip(i as int).first() == es@[i as int]);
            assert(es@.skip(i as int).drop_first() =~= es@.skip(i as int + 1));
            assert(decreases_to!(*es => es@[i as int]));
        }
        acc = x_expr(&es[i], sc_s, sc_e, acc);
        i += 1;
    }
    proof {
        assert(es@.skip(i as int).len() == 0);
    }
    acc
}

fn x_args(args: &Vec<Arg>, sc_s: u32, sc_e: u32, acc: Vec<ConstBinding>) -> (r: Vec<ConstBinding>)
    ensures
        cb_views(r@) == cc_args(args@, sc_s, sc_e, cb_views(acc@)),
    decreases *args, 1int,
{
    let mut acc = acc;
    let ghost acc0 = cb_views(acc@);
    let mut i: usize = 0;
    proof {
        assert(args@.skip(0) =~= args@);
    }
    while i < args.len()
        invariant
            i <= args@.len(),
            cc_args(args@, sc_s, sc_e, acc0) == cc_args(args@.skip(i as int), sc_s, sc_e, cb_views(acc@)),
        decreases args@.len() - i,
    {
        proof {
            assert(args@.skip(i as int).first() == args@[i as int]);
            assert(args@.skip(i as int).drop_first() =~= args@.skip(i as int + 1));
            assert(decreases_to!(*args => args@[i as int]));
            assert(decreases_to!(*args => args@[i as int].expr));
        }
        acc = x_expr(&args[i].expr, sc_s, sc_e, acc);
        i += 1;
    }
    proof {
        assert(args@.skip(i as int).len() == 0);
    }
    acc
}

fn x_parts(ps: &Vec<ObjectPart>, sc_s: u32, sc_e: u32, acc: Vec<ConstBinding>) -> (r: Vec<
    ConstBinding,
>)
    ensures
        cb_views(r@) == cc_parts(ps@, sc_s, sc_e, cb_views(acc@)),
    decreases *ps, 1int,
{
    let mut acc = acc;
    let ghost acc0 = cb_views(acc@);
    let mut i: usize = 0;
    proof {
        assert(ps@.skip(0) =~= ps@);
    }
    while i < ps.len()
        invariant
            i <= ps@.len(),
            cc_parts(ps@, sc_s, sc_e, acc0) == cc_parts(ps@.skip(i as int), sc_s, sc_e, cb_views(acc@)),
        decreases ps@.len() - i,
    {
        proof {
            assert(ps@.skip(i as int).first() == ps@[i as int]);
            assert(ps@.skip(i as int).drop_first() =~= ps@.skip(i as int + 1));
            assert(decreases_to!(*ps => ps@[i as int]));
        }
        match &ps[i] {
            ObjectPart::Value(e) => {
                acc = x_expr(e, sc_s, sc_e, acc);
            },
            ObjectPart::Spread(e) => {
                acc = x_expr(e, sc_s, sc_e, acc);
            },
            ObjectPart::Other => {},
        }
        i += 1;
    }
    proof {
        assert(ps@.skip(i as int).len() == 0);
    }
    acc
}

#[verifier::rlimit(60)]
fn x_expr(e: &Expr, sc_s: u32, sc_e: u32, acc: Vec<ConstBinding>) -> (r: Vec<ConstBinding>)
    ensures
        cb_views(r@) == cc_expr(*e, sc_s, sc_e, cb_views(acc@)),
    decreases *e, 0int,
{
    match e {
        Expr::Call { callee, args, line } => {
            let a1 = x_args(args, sc_s, sc_e, acc);
            match callee {
                Some(c) => x_expr(c, sc_s, sc_e, a1),
                None => a1,
            }
        },
        Expr::Arrow { body } => match body {
            ArrowBody::Block(b) => x_stmts(&b.stmts, b.start_line, b.end_line, acc),
            ArrowBody::Expr { expr, start_line, end_line } => x_expr(
                expr,
                *start_line,
                *end_line,
                acc,
            ),
        },
        Expr::Func { body } => match body {
            Some(b) => x_stmts(&b.stmts, b.start_line, b.end_line, acc),
            None => acc,
        },
        Expr::Wrap { inner } => x_expr(inner, sc_s, sc_e, acc),
        Expr::Add { left, right } => {
            let a1 = x_expr(left, sc_s, sc_e, acc);
            x_expr(right, sc_s, sc_e, a1)
        },
        Expr::BinOther { left, right } => {
            let a1 = x_expr(left, sc_s, sc_e, acc);
            x_expr(right, sc_s, sc_e, a1)
        },
        Expr::Cond { test, cons, alt } => {
            let a1 = x_expr(test, sc_s, sc_e, acc);
            let a2 = x_expr(cons, sc_s, sc_e, a1);
            x_expr(alt, sc_s, sc_e, a2)
        },
        Expr::Assign { right } => x_expr(right, sc_s, sc_e, acc),
        Expr::Array { elems } => x_exprs(elems, sc_s, sc_e, acc),
        Expr::Object { parts } => x_parts(parts, sc_s, sc_e, acc),
        Expr::Tpl { quasis, exprs } => x_exprs(exprs, sc_s, sc_e, acc),
        Expr::TaggedTpl { tag, exprs } => {
            let a1 = x_expr(tag, sc_s, sc_e, acc);
            x_exprs(exprs, sc_s, sc_e, a1)
        },
        Expr::Comma { exprs } => x_exprs(exprs, sc_s, sc_e, acc),
        Expr::Member { obj, prop, computed } => {
            let a1 = x_expr(obj, sc_s, sc_e, acc);
            match computed {
                Some(c) => x_expr(c, sc_s, sc_e, a1),
                None => a1,
            }
        },
        Expr::Await { inner } => x_expr(inner, sc_s, sc_e, acc),
        Expr::Yield { inner } => match inner {
            Some(i) => x_expr(i, sc_s, sc_e, acc),
            None => acc,
        },
        Expr::Unary { inner } => x_expr(inner, sc_s, sc_e, acc),
        Expr::Jsx(el) => x_jsx_elem(el, sc_s, sc_e, acc),
        Expr::JsxFrag { children } => x_children(children, sc_s, sc_e, acc),
        _ => acc,
    }
}

fn x_jsx_elem(el: &JsxElem, sc_s: u32, sc_e: u32, acc: Vec<ConstBinding>) -> (r: Vec<ConstBinding>)
    ensures
        cb_views(r@) == cc_jsx_elem(*el, sc_s, sc_e, cb_views(acc@)),
    decreases *el, 1int,
{
    let a1 = x_exprs(&el.attrs, sc_s, sc_e, acc);
    x_children(&el.children, sc_s, sc_e, a1)
}

fn x_children(cs: &Vec<JsxChild>, sc_s: u32, sc_e: u32, acc: Vec<ConstBinding>) -> (r: Vec<
    ConstBinding,
>)
    ensures
        cb_views(r@) == cc_children(cs@, sc_s, sc_e, cb_views(acc@)),
    decreases *cs, 1int,
{
    let mut acc = acc;
    let ghost acc0 = cb_views(acc@);
    let mut i: usize = 0;
    proof {
        assert(cs@.skip(0) =~= cs@);
    }
    while i < cs.len()
        invariant
            i <= cs@.len(),
            cc_children(cs@, sc_s, sc_e, acc0) == cc_children(
                cs@.skip(i as int),
                sc_s,
                sc_e,
                cb_views(acc@),
            ),
        decreases cs@.len() - i,
    {
        proof {
            assert(cs@.skip(i as int).first() == cs@[i as int]);
            assert(cs@.skip(i as int).drop_first() =~= cs@.skip(i as int + 1));
            assert(decreases_to!(*cs => cs@[i as int]));
        }
        acc = x_child(&cs[i], sc_s, sc_e, acc);
        i += 1;
    }
    proof {
        assert(cs@.skip(i as int).len() == 0);
    }
    acc
}

fn x_child(c: &JsxChild, sc_s: u32, sc_e: u32, acc: Vec<ConstBinding>) -> (r: Vec<ConstBinding>)
    ensures
        cb_views(r@) == cc_child(*c, sc_s, sc_e, cb_views(acc@)),
    decreases *c, 2int,
{
    match c {
        JsxChild::Container { expr, span, expr_span } => match expr {
            Some(e) => x_expr(e, sc_s, sc_e, acc),
            None => acc,
        },
        JsxChild::Elem(el) => x_jsx_elem(el, sc_s, sc_e, acc),
        JsxChild::Frag { children } => x_children(children, sc_s, sc_e, acc),
        _ => acc,
    }
}

} // verus!
