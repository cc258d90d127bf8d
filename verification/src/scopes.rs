//! The scope collector: finds every translation-hook invocation and records,
//! for the line range it governs, the namespace and the local alias of the
//! translation function.
//!
//! A hook call can stand bare in an expression statement (the alias then
//! defaults to `t`) or initialize a variable declarator, possibly wrapped in
//! `await`, parentheses or TypeScript casts; the alias is then read from the
//! binding pattern.  Point lookups prefer the innermost (smallest) enclosing
//! scope; of two equally small, the one collected first wins.

use vstd::prelude::*;

use crate::ast::Arg;
use crate::ast::ArrowBody;
use crate::ast::Block;
use crate::ast::Decl;
use crate::ast::Expr;
use crate::ast::JsxChild;
use crate::ast::Module;
use crate::ast::ModuleItem;
use crate::ast::Pat;
use crate::ast::PatProp;
use crate::ast::Stmt;
use crate::ast::VarDecl;
use crate::ast::VarDeclarator;
use crate::consts::ConstBinding;
use crate::consts::SBinding;
use crate::consts::cb_views;
use crate::consts::eval_expr;
use crate::consts::sp_eval;

verus! {

/// Mathematical model of a namespace scope.
pub struct SScope {
    pub ns: Option<Seq<char>>,
    pub t_func: Option<Seq<char>>,
    pub start_line: u32,
    pub end_line: u32,
}

/// A translation-hook scope: the namespace bound (when the hook's first
/// argument is statically known), the local translation-function alias, and
/// the governed line range.
pub struct NamespaceScope {
    pub ns: Option<String>,
    pub t_func: Option<String>,
    pub start_line: u32,
    pub end_line: u32,
}

pub open spec fn ns_view(s: NamespaceScope) -> SScope {
    SScope {
        ns: match s.ns {
            Some(n) => Some(n@),
            None => None,
        },
        t_func: match s.t_func {
            Some(t) => Some(t@),
            None => None,
        },
        start_line: s.start_line,
        end_line: s.end_line,
    }
}

pub open spec fn ns_views(s: Seq<NamespaceScope>) -> Seq<SScope>
    decreases s,
{
    if s.len() == 0 {
        Seq::empty()
    } else {
        ns_views(s.drop_last()).push(ns_view(s.last()))
    }
}

pub broadcast proof fn lemma_ns_views_index(s: Seq<NamespaceScope>, i: int)
    requires
        0 <= i < s.len(),
    ensures
        #[trigger] ns_views(s)[i] == ns_view(s[i]),
        ns_views(s).len() == s.len(),
    decreases s,
{
    if s.len() > 0 {
        if i < s.len() - 1 {
            lemma_ns_views_index(s.drop_last(), i);
        } else {
            lemma_ns_views_len(s.drop_last());
        }
    }
}

pub broadcast proof fn lemma_ns_views_len(s: Seq<NamespaceScope>)
    ensures
        #[trigger] ns_views(s).len() == s.len(),
    decreases s,
{
    if s.len() > 0 {
        lemma_ns_views_len(s.drop_last());
    }
}

/// The recognized translation-hook names.
pub open spec fn is_hook_name(n: Seq<char>) -> bool {
    n == "useTranslation"@ || n == "useTranslations"@ || n == "getTranslations"@
}

pub fn hook_name_test(n: &String) -> (r: bool)
    ensures
        r == is_hook_name(n@),
{
    let a = String::from_str("useTranslation");
    let b = String::from_str("useTranslations");
    let c = String::from_str("getTranslations");
    *n == a || *n == b || *n == c
}

/// Unwraps `await`, parentheses and casts down to a call, if one is there.
pub open spec fn sp_unwrap_hook(e: Expr) -> Option<Expr>
    decreases e,
{
    match e {
        Expr::Call { .. } => Some(e),
        Expr::Wrap { inner } => sp_unwrap_hook(*inner),
        Expr::Await { inner } => sp_unwrap_hook(*inner),
        _ => None,
    }
}

pub fn unwrap_hook(e: &Expr) -> (r: Option<&Expr>)
    ensures
        match r {
            Some(c) => sp_unwrap_hook(*e) == Some(*c) && c matches Expr::Call { .. },
            None => sp_unwrap_hook(*e) is None,
        },
    decreases *e,
{
    match e {
        Expr::Call { .. } => Some(e),
        Expr::Wrap { inner } => unwrap_hook(inner),
        Expr::Await { inner } => unwrap_hook(inner),
        _ => None,
    }
}

/// The bare-identifier callee name of a call expression.
pub open spec fn sp_callee_name(e: Expr) -> Option<Seq<char>> {
    match e {
        Expr::Call { callee, .. } => match callee {
            Some(c) => match *c {
                Expr::Ident { name, .. } => Some(name@),
                _ => None,
            },
            None => None,
        },
        _ => None,
    }
}

/// The namespace named by the hook call's first argument, when it is
/// statically known.
pub open spec fn sp_hook_ns(e: Expr, bs: Seq<SBinding>) -> Option<Seq<char>> {
    match e {
        Expr::Call { args, .. } => {
            if args@.len() > 0 {
                sp_eval(args@[0].expr, bs)
            } else {
                None
            }
        },
        _ => None,
    }
}

/// The translation-function alias bound by a declarator pattern: a plain
/// identifier, `{ t }`, `{ t: alias }`, or the first element of an array
/// pattern.
pub open spec fn sp_detect_t(p: Pat) -> Option<Seq<char>> {
    match p {
        Pat::Ident { name } => Some(name@),
        Pat::Object { props } => sp_detect_props(props@),
        Pat::Array { elems } => {
            if elems@.len() > 0 {
                match elems@[0] {
                    Pat::Ident { name } => Some(name@),
                    _ => None,
                }
            } else {
                None
            }
        },
        _ => None,
    }
}

pub open spec fn sp_detect_props(ps: Seq<PatProp>) -> Option<Seq<char>>
    decreases ps.len(),
{
    if ps.len() == 0 {
        None
    } else {
        match ps.first() {
            PatProp::Shorthand { key } => {
                if key@ == "t"@ {
                    Some("t"@)
                } else {
                    sp_detect_props(ps.drop_first())
                }
            },
            PatProp::KeyValue { key, value } => {
                let is_t = match key {
                    Some(k) => k@ == "t"@,
                    None => false,
                };
                if is_t {
                    match *value {
                        Pat::Ident { name } => Some(name@),
                        _ => sp_detect_props(ps.drop_first()),
                    }
                } else {
                    sp_detect_props(ps.drop_first())
                }
            },
            PatProp::Rest => sp_detect_props(ps.drop_first()),
        }
    }
}

pub fn detect_t(p: &Pat) -> (r: Option<String>)
    ensures
        match r {
            Some(v) => sp_detect_t(*p) == Some(v@),
            None => sp_detect_t(*p) is None,
        },
{
    match p {
        Pat::Ident { name } => Some(name.clone()),
        Pat::Object { props } => detect_props(props),
        Pat::Array { elems } => {
            if elems.len() > 0 {
                match &elems[0] {
                    Pat::Ident { name } => Some(name.clone()),
                    _ => None,
                }
            } else {
                None
            }
        },
        _ => None,
    }
}

fn detect_props(ps: &Vec<PatProp>) -> (r: Option<String>)
    ensures
        match r {
            Some(v) => sp_detect_props(ps@) == Some(v@),
            None => sp_detect_props(ps@) is None,
        },
{
    let mut i: usize = 0;
    proof {
        assert(ps@.skip(0) =~= ps@);
    }
    while i < ps.len()
        invariant
            i <= ps@.len(),
            sp_detect_props(ps@) == sp_detect_props(ps@.skip(i as int)),
        decreases ps@.len() - i,
    {
        proof {
            assert(ps@.skip(i as int).first() == ps@[i as int]);
            assert(ps@.skip(i as int).drop_first() =~= ps@.skip(i as int + 1));
        }
        match &ps[i] {
            PatProp::Shorthand { key } => {
                if str_eq_lit(key, "t") {
                    return Some(String::from_str("t"));
                }
            },
            PatProp::KeyValue { key, value } => {
                let is_t = match key {
                    Some(k) => str_eq_lit(k, "t"),
                    None => false,
                };
                if is_t {
                    match &**value {
                        Pat::Ident { name } => {
                            return Some(name.clone());
                        },
                        _ => {},
                    }
                }
            },
            PatProp::Rest => {},
        }
        i += 1;
    }
    proof {
        assert(ps@.skip(i as int).len() == 0);
    }
    None
}

/// Whether `s` is the string `lit`.
pub fn str_eq_lit(s: &String, lit: &str) -> (r: bool)
    ensures
        r == (s@ == lit@),
{
    let l = String::from_str(lit);
    *s == l
}

// ---------------------------------------------------------------------------
// Collection.
// ---------------------------------------------------------------------------

/// The scope recorded for a hook call in a bare expression statement.
pub open spec fn sc_stmt_scope(call: Expr, bs: Seq<SBinding>, sc_s: u32, sc_e: u32) -> SScope {
    SScope {
        ns: sp_hook_ns(call, bs),
        t_func: Some("t"@),
        start_line: sc_s,
        end_line: sc_e,
    }
}

/// The scope recorded for a hook call initializing a declarator.
pub open spec fn sc_decl_scope(call: Expr, name: Pat, bs: Seq<SBinding>, sc_s: u32, sc_e: u32) -> SScope {
    SScope {
        ns: sp_hook_ns(call, bs),
        t_func: sp_detect_t(name),
        start_line: sc_s,
        end_line: sc_e,
    }
}

pub open spec fn sc_module(m: Module, bs: Seq<SBinding>) -> Seq<SScope> {
    sc_items(m.body@, bs, Seq::empty())
}

pub open spec fn sc_items(items: Seq<ModuleItem>, bs: Seq<SBinding>, acc: Seq<SScope>) -> Seq<
    SScope,
>
    decreases items, 1int,
{
    if items.len() == 0 {
        acc
    } else {
        sc_items(items.drop_first(), bs, sc_item(items.first(), bs, acc))
    }
}

pub open spec fn sc_item(item: ModuleItem, bs: Seq<SBinding>, acc: Seq<SScope>) -> Seq<SScope>
    decreases item, 2int,
{
    match item {
        ModuleItem::Stmt(s) => sc_stmt(s, 0, u32::MAX, bs, acc),
        ModuleItem::ExportDecl(d) => sc_decl(d, 0, u32::MAX, bs, acc),
        ModuleItem::ExportDefaultExpr(e) => sc_vexpr(*e, 0, u32::MAX, bs, acc),
        ModuleItem::ExportDefaultFunc { body } => match body {
            Some(b) => sc_stmts(b.stmts@, b.start_line, b.end_line, bs, acc),
            None => acc,
        },
        ModuleItem::Other => acc,
    }
}

pub open spec fn sc_stmts(
    ss: Seq<Stmt>,
    sc_s: u32,
    sc_e: u32,
    bs: Seq<SBinding>,
    acc: Seq<SScope>,
) -> Seq<SScope>
    decreases ss, 1int,
{
    if ss.len() == 0 {
        acc
    } else {
        sc_stmts(ss.drop_first(), sc_s, sc_e, bs, sc_stmt(ss.first(), sc_s, sc_e, bs, acc))
    }
}

pub open spec fn sc_stmt(s: Stmt, sc_s: u32, sc_e: u32, bs: Seq<SBinding>, acc: Seq<SScope>) -> Seq<
    SScope,
>
    decreases s, 2int,
{
    match s {
        Stmt::Decl(d) => sc_decl(d, sc_s, sc_e, bs, acc),
        Stmt::Expr { expr } => {
            let a1 = match sp_unwrap_hook(*expr) {
                Some(call) => {
                    if (match sp_callee_name(call) {
                        Some(n) => is_hook_name(n),
                        None => false,
                    }) {
                        acc.push(sc_stmt_scope(call, bs, sc_s, sc_e))
                    } else {
                        acc
                    }
                },
                None => acc,
            };
            sc_vexpr(*expr, sc_s, sc_e, bs, a1)
        },
        Stmt::Return { arg } => match arg {
            Some(e) => sc_vexpr(*e, sc_s, sc_e, bs, acc),
            None => acc,
        },
        Stmt::Block { stmts } => sc_stmts(stmts@, sc_s, sc_e, bs, acc),
        Stmt::If { test, cons, alt } => {
            let a1 = sc_stmt(*cons, sc_s, sc_e, bs, acc);
            match alt {
                Some(a) => sc_stmt(*a, sc_s, sc_e, bs, a1),
                None => a1,
            }
        },
        _ => acc,
    }
}

pub open spec fn sc_decl(d: Decl, sc_s: u32, sc_e: u32, bs: Seq<SBinding>, acc: Seq<SScope>) -> Seq<
    SScope,
>
    decreases d, 3int,
{
    match d {
        Decl::Var(vd) => sc_declarators(vd.decls@, sc_s, sc_e, bs, acc),
        Decl::Func { body } => match body {
            Some(b) => sc_stmts(b.stmts@, b.start_line, b.end_line, bs, acc),
            None => acc,
        },
        Decl::Other => acc,
    }
}

pub open spec fn sc_declarators(
    ds: Seq<VarDeclarator>,
    sc_s: u32,
    sc_e: u32,
    bs: Seq<SBinding>,
    acc: Seq<SScope>,
) -> Seq<SScope>
    decreases ds, 1int,
{
    if ds.len() == 0 {
        acc
    } else {
        let d = ds.first();
        let a1 = match d.init {
            Some(e) => {
                let a0 = match sp_unwrap_hook(*e) {
                    Some(call) => {
                        if (match sp_callee_name(call) {
                            Some(n) => is_hook_name(n),
                            None => false,
                        }) {
                            acc.push(sc_decl_scope(call, d.name, bs, sc_s, sc_e))
                        } else {
                            acc
                        }
                    },
                    None => acc,
                };
                sc_vexpr(*e, sc_s, sc_e, bs, a0)
            },
            None => acc,
        };
        sc_declarators(ds.drop_first(), sc_s, sc_e, bs, a1)
    }
}

/// The scope collector's expression walk: only function bodies, call
/// arguments and wrappers are entered.
pub open spec fn sc_vexpr(e: Expr, sc_s: u32, sc_e: u32, bs: Seq<SBinding>, acc: Seq<SScope>) -> Seq<
    SScope,
>
    decreases e, 0int,
{
    match e {
        Expr::Arrow { body } => match body {
            ArrowBody::Block(b) => sc_stmts(b.stmts@, b.start_line, b.end_line, bs, acc),
            ArrowBody::Expr { expr, start_line, end_line } => sc_vexpr(
                *expr,
                start_line,
                end_line,
                bs,
                acc,
            ),
        },
        Expr::Func { body } => match body {
            Some(b) => sc_stmts(b.stmts@, b.start_line, b.end_line, bs, acc),
            None => acc,
        },
        Expr::Call { args, .. } => sc_vargs(args@, sc_s, sc_e, bs, acc),
        Expr::Wrap { inner } => sc_vexpr(*inner, sc_s, sc_e, bs, acc),
        _ => acc,
    }
}

pub open spec fn sc_vargs(
    args: Seq<Arg>,
    sc_s: u32,
    sc_e: u32,
    bs: Seq<SBinding>,
    acc: Seq<SScope>,
) -> Seq<SScope>
    decreases args, 1int,
{
    if args.len() == 0 {
        acc
    } else {
        sc_vargs(
            args.drop_first(),
            sc_s,
            sc_e,
            bs,
            sc_vexpr(args.first().expr, sc_s, sc_e, bs, acc),
        )
    }
}

// ---------------------------------------------------------------------------
// Point lookups.
// ---------------------------------------------------------------------------

pub open spec fn scope_contains(s: SScope, line: u32) -> bool {
    s.start_line <= line && line <= s.end_line
}

pub open spec fn scope_size(s: SScope) -> int {
    s.end_line - s.start_line
}

/// The innermost scope whose range holds `line`; of two equally small the
/// one collected first.
pub open spec fn sp_scope_at(ss: Seq<SScope>, line: u32) -> Option<SScope>
    decreases ss.len(),
{
    if ss.len() == 0 {
        None
    } else {
        let rest = sp_scope_at(ss.drop_last(), line);
        let s = ss.last();
        if scope_contains(s, line) {
            match rest {
                Some(r0) => if scope_size(s) < scope_size(r0) {
                    Some(s)
                } else {
                    Some(r0)
                },
                None => Some(s),
            }
        } else {
            rest
        }
    }
}

/// The innermost scope holding `line` that has a namespace; of two equally
/// small the one collected first.
pub open spec fn sp_ns_scope_at(ss: Seq<SScope>, line: u32) -> Option<SScope>
    decreases ss.len(),
{
    if ss.len() == 0 {
        None
    } else {
        let rest = sp_ns_scope_at(ss.drop_last(), line);
        let s = ss.last();
        if scope_contains(s, line) && s.ns is Some {
            match rest {
                Some(r0) => if scope_size(s) < scope_size(r0) {
                    Some(s)
                } else {
                    Some(r0)
                },
                None => Some(s),
            }
        } else {
            rest
        }
    }
}

/// The namespace governing `line`: that of the innermost enclosing scope
/// that has one.
pub open spec fn sp_ns_at(ss: Seq<SScope>, line: u32) -> Option<Seq<char>> {
    match sp_ns_scope_at(ss, line) {
        Some(s) => s.ns,
        None => None,
    }
}

/// Whether some scope holding `line` binds the alias `name`.
pub open spec fn sp_alias_at(ss: Seq<SScope>, name: Seq<char>, line: u32) -> bool {
    exists|i: int|
        0 <= i < ss.len() && scope_contains(#[trigger] ss[i], line) && ss[i].t_func == Some(name)
}

/// Whether some scope holding `line` binds the alias `name`.
pub fn alias_at(ss: &Vec<NamespaceScope>, name: &String, line: u32) -> (r: bool)
    ensures
        r == sp_alias_at(ns_views(ss@), name@, line),
{
    let ghost ssv = ns_views(ss@);
    let mut i: usize = 0;
    proof {
        lemma_ns_views_len(ss@);
    }
    while i < ss.len()
        invariant
            i <= ss@.len(),
            ssv == ns_views(ss@),
            ssv.len() == ss@.len(),
            forall|m: int|
                0 <= m < i ==> !(scope_contains(#[trigger] ssv[m], line) && ssv[m].t_func == Some(
                    name@,
                )),
        decreases ss@.len() - i,
    {
        proof {
            lemma_ns_views_index(ss@, i as int);
        }
        let s = &ss[i];
        if s.start_line <= line && line <= s.end_line {
            match &s.t_func {
                Some(t) => {
                    if *t == *name {
                        proof {
                            assert(scope_contains(ssv[i as int], line) && ssv[i as int].t_func
                                == Some(name@));
                        }
                        return true;
                    }
                },
                None => {},
            }
        }
        i += 1;
    }
    false
}


/// The namespace governing `line`, when an enclosing scope binds one.
pub fn ns_at(ss: &Vec<NamespaceScope>, line: u32) -> (r: Option<String>)
    ensures
        match r {
            Some(v) => sp_ns_at(ns_views(ss@), line) == Some(v@),
            None => sp_ns_at(ns_views(ss@), line) is None,
        },
{
    let ghost ssv = ns_views(ss@);
    let mut best: Option<usize> = None;
    let mut i: usize = 0;
    proof {
        lemma_ns_views_len(ss@);
        assert(ssv.take(0) =~= Seq::<SScope>::empty());
    }
    while i < ss.len()
        invariant
            i <= ss@.len(),
            ssv == ns_views(ss@),
            ssv.len() == ss@.len(),
            match best {
                Some(bi) => {
                    &&& bi < i
                    &&& sp_ns_scope_at(ssv.take(i as int), line) == Some(ssv[bi as int])
                    &&& scope_contains(ssv[bi as int], line)
                    &&& ssv[bi as int].ns is Some
                },
                None => sp_ns_scope_at(ssv.take(i as int), line) is None,
            },
        decreases ss@.len() - i,
    {
        proof {
            lemma_ns_views_index(ss@, i as int);
            assert(ssv.take(i as int + 1).drop_last() =~= ssv.take(i as int));
            assert(ssv.take(i as int + 1).last() == ssv[i as int]);
        }
        let s = &ss[i];
        let has_ns = match &s.ns {
            Some(_) => true,
            None => false,
        };
        if s.start_line <= line && line <= s.end_line && has_ns {
            let replace = match best {
                Some(bi) => {
                    let cur = &ss[bi];
                    proof {
                        lemma_ns_views_index(ss@, bi as int);
                    }
                    s.end_line - s.start_line < cur.end_line - cur.start_line
                },
                None => true,
            };
            if replace {
                best = Some(i);
            }
        }
        i += 1;
    }
    proof {
        assert(ssv.take(ss@.len() as int) =~= ssv);
    }
    match best {
        Some(bi) => {
            proof {
                lemma_ns_views_index(ss@, bi as int);
            }
            match &ss[bi].ns {
                Some(n) => Some(n.clone()),
                None => None,
            }
        },
        None => None,
    }
}

/// The innermost scope holding `line`, if any.
pub fn scope_at(ss: &Vec<NamespaceScope>, line: u32) -> (r: Option<usize>)
    ensures
        match r {
            Some(bi) => bi < ss@.len() && sp_scope_at(ns_views(ss@), line) == Some(
                ns_views(ss@)[bi as int],
            ),
            None => sp_scope_at(ns_views(ss@), line) is None,
        },
{
    let ghost ssv = ns_views(ss@);
    let mut best: Option<usize> = None;
    let mut i: usize = 0;
    proof {
        lemma_ns_views_len(ss@);
        assert(ssv.take(0) =~= Seq::<SScope>::empty());
    }
    while i < ss.len()
        invariant
            i <= ss@.len(),
            ssv == ns_views(ss@),
            ssv.len() == ss@.len(),
            match best {
                Some(bi) => {
                    &&& bi < i
                    &&& sp_scope_at(ssv.take(i as int), line) == Some(ssv[bi as int])
                    &&& scope_contains(ssv[bi as int], line)
                },
                None => sp_scope_at(ssv.take(i as int), line) is None,
            },
        decreases ss@.len() - i,
    {
        proof {
            lemma_ns_views_index(ss@, i as int);
            assert(ssv.take(i as int + 1).drop_last() =~= ssv.take(i as int));
            assert(ssv.take(i as int + 1).last() == ssv[i as int]);
        }
        let s = &ss[i];
        if s.start_line <= line && line <= s.end_line {
            let replace = match best {
                Some(bi) => {
                    let cur = &ss[bi];
                    proof {
                        lemma_ns_views_index(ss@, bi as int);
                    }
                    s.end_line - s.start_line < cur.end_line - cur.start_line
                },
                None => true,
            };
            if replace {
                best = Some(i);
            }
        }
        i += 1;
    }
    proof {
        assert(ssv.take(ss@.len() as int) =~= ssv);
    }
    best
}

// ---------------------------------------------------------------------------
// Exec collection.
// ---------------------------------------------------------------------------

/// Collects the namespace scopes of the module, in traversal order.
pub fn collect_scopes(m: &Module, bs: &Vec<ConstBinding>) -> (r: Vec<NamespaceScope>)
    ensures
        ns_views(r@) == sc_module(*m, cb_views(bs@)),
{
    proof {
        assert(ns_views(Seq::<NamespaceScope>::empty()) =~= Seq::<SScope>::empty());
    }
    y_items(&m.body, bs, Vec::new())
}

fn y_items(items: &Vec<ModuleItem>, bs: &Vec<ConstBinding>, acc: Vec<NamespaceScope>) -> (r: Vec<
    NamespaceScope,
>)
    ensures
        ns_views(r@) == sc_items(items@, cb_views(bs@), ns_views(acc@)),
    decreases *items, 1int,
{
    let mut acc = acc;
    let ghost acc0 = ns_views(acc@);
    let mut i: usize = 0;
    proof {
        assert(items@.skip(0) =~= items@);
    }
    while i < items.len()
        invariant
            i <= items@.len(),
            sc_items(items@, cb_views(bs@), acc0) == sc_items(
                items@.skip(i as int),
                cb_views(bs@),
                ns_views(acc@),
            ),
        decreases items@.len() - i,
    {
        proof {
            assert(items@.skip(i as int).first() == items@[i as int]);
            assert(items@.skip(i as int).drop_first() =~= items@.skip(i as int + 1));
            assert(decreases_to!(*items => items@[i as int]));
        }
        acc = y_item(&items[i], bs, acc);
        i += 1;
    }
    proof {
        assert(items@.skip(i as int).len() == 0);
    }
    acc
}

fn y_item(item: &ModuleItem, bs: &Vec<ConstBinding>, acc: Vec<NamespaceScope>) -> (r: Vec<
    NamespaceScope,
>)
    ensures
        ns_views(r@) == sc_item(*item, cb_views(bs@), ns_views(acc@)),
    decreases *item, 2int,
{
    match item {
        ModuleItem::Stmt(s) => y_stmt(s, 0, u32::MAX, bs, acc),
        ModuleItem::ExportDecl(d) => y_decl(d, 0, u32::MAX, bs, acc),
        ModuleItem::ExportDefaultExpr(e) => y_vexpr(e, 0, u32::MAX, bs, acc),
        ModuleItem::ExportDefaultFunc { body } => match body {
            Some(b) => y_stmts(&b.stmts, b.start_line, b.end_line, bs, acc),
            None => acc,
        },
        ModuleItem::Other => acc,
    }
}

fn y_stmts(
    ss: &Vec<Stmt>,
    sc_s: u32,
    sc_e: u32,
    bs: &Vec<ConstBinding>,
    acc: Vec<NamespaceScope>,
) -> (r: Vec<NamespaceScope>)
    ensures
        ns_views(r@) == sc_stmts(ss@, sc_s, sc_e, cb_views(bs@), ns_views(acc@)),
    decreases *ss, 1int,
{
    let mut acc = acc;
    let ghost acc0 = ns_views(acc@);
    let mut i: usize = 0;
    proof {
        assert(ss@.skip(0) =~= ss@);
    }
    while i < ss.len()
        invariant
            i <= ss@.len(),
            sc_stmts(ss@, sc_s, sc_e, cb_views(bs@), acc0) == sc_stmts(
                ss@.skip(i as int),
                sc_s,
                sc_e,
                cb_views(bs@),
                ns_views(acc@),
            ),
        decreases ss@.len() - i,
    {
        proof {
            assert(ss@.skip(i as int).first() == ss@[i as int]);
            assert(ss@.skip(i as int).drop_first() =~= ss@.skip(i as int + 1));
            assert(decreases_to!(*ss => ss@[i as int]));
        }
        acc = y_stmt(&ss[i], sc_s, sc_e, bs, acc);
        i += 1;
    }
    proof {
        assert(ss@.skip(i as int).len() == 0);
    }
    acc
}

/// Records a hook scope for `call` if it is a recognized hook invocation.
fn y_push_hook(
    call: &Expr,
    t_func: Option<String>,
    from_decl: bool,
    sc_s: u32,
    sc_e: u32,
    bs: &Vec<ConstBinding>,
    acc: Vec<NamespaceScope>,
) -> (r: Vec<NamespaceScope>)
    requires
        call matches Expr::Call { .. },
    ensures
        ns_views(r@) == if (match sp_callee_name(*call) {
            Some(n) => is_hook_name(n),
            None => false,
        }) {
            ns_views(acc@).push(
                SScope {
                    ns: sp_hook_ns(*call, cb_views(bs@)),
                    t_func: match t_func {
                        Some(t) => Some(t@),
                        None => None,
                    },
                    start_line: sc_s,
                    end_line: sc_e,
                },
            )
        } else {
            ns_views(acc@)
        },
{
    let mut acc = acc;
    let is_hook = match call {
        Expr::Call { callee, .. } => match callee {
            Some(c) => match &**c {
                Expr::Ident { name, .. } => hook_name_test(name),
                _ => false,
            },
            None => false,
        },
        _ => false,
    };
    if is_hook {
        let ns = match call {
            Expr::Call { args, .. } => {
                if args.len() > 0 {
                    eval_expr(&args[0].expr, bs)
                } else {
                    None
                }
            },
            _ => None,
        };
        let ghost old_acc = acc@;
        acc.push(NamespaceScope { ns, t_func, start_line: sc_s, end_line: sc_e });
        proof {
            assert(acc@.drop_last() =~= old_acc);
            assert(ns_views(acc@) == ns_views(old_acc).push(ns_view(acc@.last())));
        }
    }
    acc
}

fn y_stmt(
    s: &Stmt,
    sc_s: u32,
    sc_e: u32,
    bs: &Vec<ConstBinding>,
    acc: Vec<NamespaceScope>,
) -> (r: Vec<NamespaceScope>)
    ensures
        ns_views(r@) == sc_stmt(*s, sc_s, sc_e, cb_views(bs@), ns_views(acc@)),
    decreases *s, 2int,
{
    match s {
        Stmt::Decl(d) => y_decl(d, sc_s, sc_e, bs, acc),
        Stmt::Expr { expr } => {
            let a1 = match unwrap_hook(expr) {
                Some(call) => y_push_hook(call, Some(String::from_str("t")), false, sc_s, sc_e, bs, acc),
                None => acc,
            };
            y_vexpr(expr, sc_s, sc_e, bs, a1)
        },
        Stmt::Return { arg } => match arg {
            Some(e) => y_vexpr(e, sc_s, sc_e, bs, acc),
            None => acc,
        },
        Stmt::Block { stmts } => y_stmts(stmts, sc_s, sc_e, bs, acc),
        Stmt::If { test, cons, alt } => {
            let a1 = y_stmt(cons, sc_s, sc_e, bs, acc);
            match alt {
                Some(a) => y_stmt(a, sc_s, sc_e, bs, a1),
                None => a1,
            }
        },
        _ => acc,
    }
}

fn y_decl(
    d: &Decl,
    sc_s: u32,
    sc_e: u32,
    bs: &Vec<ConstBinding>,
    acc: Vec<NamespaceScope>,
) -> (r: Vec<NamespaceScope>)
    ensures
        ns_views(r@) == sc_decl(*d, sc_s, sc_e, cb_views(bs@), ns_views(acc@)),
    decreases *d, 3int,
{
    match d {
        Decl::Var(vd) => {
            let mut acc = acc;
            let ghost acc0 = ns_views(acc@);
            let ds = &vd.decls;
            let mut i: usize = 0;
            proof {
                assert(ds@.skip(0) =~= ds@);
            }
            while i < ds.len()
                invariant
                    i <= ds@.len(),
                    decreases_to!(*d => *ds),
                    sc_declarators(ds@, sc_s, sc_e, cb_views(bs@), acc0) == sc_declarators(
                        ds@.skip(i as int),
                        sc_s,
                        sc_e,
                        cb_views(bs@),
                        ns_views(acc@),
                    ),
                decreases ds@.len() - i,
            {
                proof {
                    assert(ds@.skip(i as int).first() == ds@[i as int]);
                    assert(ds@.skip(i as int).drop_first() =~= ds@.skip(i as int + 1));
                    assert(decreases_to!(*ds => ds@[i as int]));
                }
                let dcl = &ds[i];
                match &dcl.init {
                    Some(e) => {
                        proof {
                            assert(decreases_to!(*ds => ds@[i as int].init));
                        }
                        match unwrap_hook(e) {
                            Some(call) => {
                                let tf = detect_t(&dcl.name);
                                acc = y_push_hook(call, tf, true, sc_s, sc_e, bs, acc);
                            },
                            None => {},
                        }
                        acc = y_vexpr(e, sc_s, sc_e, bs, acc);
                    },
                    None => {},
                }
                i += 1;
            }
            proof {
                assert(ds@.skip(i as int).len() == 0);
            }
            acc
        },
        Decl::Func { body } => match body {
            Some(b) => y_stmts(&b.stmts, b.start_line, b.end_line, bs, acc),
            None => acc,
        },
        Decl::Other => acc,
    }
}

fn y_vexpr(
    e: &Expr,
    sc_s: u32,
    sc_e: u32,
    bs: &Vec<ConstBinding>,
    acc: Vec<NamespaceScope>,
) -> (r: Vec<NamespaceScope>)
    ensures
        ns_views(r@) == sc_vexpr(*e, sc_s, sc_e, cb_views(bs@), ns_views(acc@)),
    decreases *e, 0int,
{
    match e {
        Expr::Arrow { body } => match body {
            ArrowBody::Block(b) => y_stmts(&b.stmts, b.start_line, b.end_line, bs, acc),
            ArrowBody::Expr { expr, start_line, end_line } => y_vexpr(
                expr,
                *start_line,
                *end_line,
                bs,
                acc,
            ),
        },
        Expr::Func { body } => match body {
            Some(b) => y_stmts(&b.stmts, b.start_line, b.end_line, bs, acc),
            None => acc,
        },
        Expr::Call { args, .. } => {
            let mut acc = acc;
            let ghost acc0 = ns_views(acc@);
            let mut i: usize = 0;
            proof {
                assert(args@.skip(0) =~= args@);
            }
            while i < args.len()
                invariant
                    i <= args@.len(),
                    decreases_to!(*e => *args),
                    sc_vargs(args@, sc_s, sc_e, cb_views(bs@), acc0) == sc_vargs(
                        args@.skip(i as int),
                        sc_s,
                        sc_e,
                        cb_views(bs@),
                        ns_views(acc@),
                    ),
                decreases args@.len() - i,
            {
                proof {
                    assert(args@.skip(i as int).first() == args@[i as int]);
                    assert(args@.skip(i as int).drop_first() =~= args@.skip(i as int + 1));
                    assert(decreases_to!(*args => args@[i as int]));
                    assert(decreases_to!(*args => args@[i as int].expr));
                }
                acc = y_vexpr(&args[i].expr, sc_s, sc_e, bs, acc);
                i += 1;
            }
            proof {
                assert(args@.skip(i as int).len() == 0);
            }
            acc
        },
        Expr::Wrap { inner } => y_vexpr(inner, sc_s, sc_e, bs, acc),
        _ => acc,
    }
}

} // verus!
