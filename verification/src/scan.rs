//! The call extractor: finds every translation call in the tree, resolves
//! its key against the enclosing namespace scope, and emits one usage record
//! per statically-resolvable call, in source traversal order.
//!
//! A call qualifies when its callee is the literal name `t`, a member access
//! whose property is `t`, or an identifier bound as a translation alias by a
//! hook scope holding the call's line.  Hook invocations themselves never
//! qualify.  The key is the resolved first argument: text containing `:`
//! names its namespace explicitly; otherwise the innermost enclosing scope
//! with a namespace supplies it, and failing that the caller's fallback
//! namespace, with the record marked as having used the fallback.

use vstd::prelude::*;

use crate::ast::Arg;
use crate::ast::ArrowBody;
use crate::ast::Expr;
use crate::ast::Decl;
use crate::ast::JsxChild;
use crate::ast::JsxElem;
use crate::ast::Module;
use crate::ast::ModuleItem;
use crate::ast::ObjectPart;
use crate::ast::Stmt;
use crate::ast::SwitchCase;
use crate::ast::VarDeclarator;
use crate::consts::ConstBinding;
use crate::consts::SBinding;
use crate::consts::cb_views;
use crate::consts::eval_expr;
use crate::consts::sp_eval;
use crate::scopes::NamespaceScope;
use crate::scopes::SScope;
use crate::scopes::alias_at;
use crate::scopes::hook_name_test;
use crate::scopes::is_hook_name;
use crate::scopes::ns_at;
use crate::scopes::ns_views;
use crate::scopes::sp_alias_at;
use crate::scopes::sp_ns_at;
use crate::scopes::str_eq_lit;
use crate::consts::cc_module;
use crate::consts::collect_consts;
use crate::decode::dec_module;
use crate::decode::rel_module;
use crate::json::parse_json;
use crate::json::sp_json;
use crate::lines::LineIndex;
use crate::parse::ParseError;
use crate::parse::dialect_flags;
use crate::parse::parse_result_of;
use crate::parse::parse_source_json;
use crate::parse::spec_dialect_flags;
use crate::scopes::collect_scopes;
use crate::scopes::sc_module;
use crate::scopes::scope_at;
use crate::scopes::sp_scope_at;
use crate::text::push_char;
use crate::text::string_chars;

verus! {

/// An inclusive 0-indexed line range restricting an analysis.
#[derive(Clone, Copy)]
pub struct Range {
    pub start_line: u32,
    pub end_line: u32,
}

/// Mathematical model of a usage record.
pub struct SScanItem {
    pub key: Seq<char>,
    pub raw: Seq<char>,
    pub namespace: Seq<char>,
    pub lnum: u32,
    pub col: u32,
    pub end_col: u32,
    pub fallback: bool,
}

/// One resolved translation-call usage: the fully-qualified key, the raw
/// first-argument text, the namespace applied, the argument's position, and
/// whether the fallback namespace was used.
pub struct ScanItem {
    pub key: String,
    pub raw: String,
    pub namespace: String,
    pub lnum: u32,
    pub col: u32,
    pub end_col: u32,
    pub fallback: bool,
}

pub open spec fn si_view(s: ScanItem) -> SScanItem {
    SScanItem {
        key: s.key@,
        raw: s.raw@,
        namespace: s.namespace@,
        lnum: s.lnum,
        col: s.col,
        end_col: s.end_col,
        fallback: s.fallback,
    }
}

pub open spec fn si_views(s: Seq<ScanItem>) -> Seq<SScanItem>
    decreases s,
{
    if s.len() == 0 {
        Seq::empty()
    } else {
        si_views(s.drop_last()).push(si_view(s.last()))
    }
}

pub broadcast proof fn lemma_si_views_index(s: Seq<ScanItem>, i: int)
    requires
        0 <= i < s.len(),
    ensures
        #[trigger] si_views(s)[i] == si_view(s[i]),
        si_views(s).len() == s.len(),
    decreases s,
{
    if s.len() > 0 {
        if i < s.len() - 1 {
            lemma_si_views_index(s.drop_last(), i);
        } else {
            lemma_si_views_len(s.drop_last());
        }
    }
}

pub broadcast proof fn lemma_si_views_len(s: Seq<ScanItem>)
    ensures
        #[trigger] si_views(s).len() == s.len(),
    decreases s,
{
    if s.len() > 0 {
        lemma_si_views_len(s.drop_last());
    }
}

/// Index of the first `:` in `s`.
pub open spec fn sp_first_colon(s: Seq<char>) -> Option<int>
    decreases s.len(),
{
    if s.len() == 0 {
        None
    } else if s.first() == ':' {
        Some(0)
    } else {
        match sp_first_colon(s.drop_first()) {
            Some(p) => Some(p + 1),
            None => None,
        }
    }
}

pub fn first_colon(s: &Vec<char>) -> (r: Option<usize>)
    ensures
        match r {
            Some(p) => sp_first_colon(s@) == Some(p as int) && p < s@.len(),
            None => sp_first_colon(s@) is None,
        },
{
    let mut i: usize = 0;
    proof {
        assert(s@.skip(0) =~= s@);
    }
    while i < s.len()
        invariant
            i <= s@.len(),
            forall|m: int| 0 <= m < i ==> s@[m] != ':',
        decreases s@.len() - i,
    {
        if s[i] == ':' {
            proof {
                lemma_first_colon_found(s@, i as int);
            }
            return Some(i);
        }
        i += 1;
    }
    proof {
        lemma_first_colon_none(s@, i as int);
    }
    None
}

proof fn lemma_first_colon_found(s: Seq<char>, i: int)
    requires
        0 <= i < s.len(),
        forall|m: int| 0 <= m < i ==> s[m] != ':',
        s[i] == ':',
    ensures
        sp_first_colon(s) == Some(i),
    decreases i,
{
    if i == 0 {
    } else {
        assert(s.first() != ':');
        lemma_first_colon_found(s.drop_first(), i - 1);
        assert(forall|m: int| 0 <= m < i - 1 ==> s.drop_first()[m] == s[m + 1]);
    }
}

proof fn lemma_first_colon_none(s: Seq<char>, i: int)
    requires
        i == s.len(),
        forall|m: int| 0 <= m < i ==> s[m] != ':',
    ensures
        sp_first_colon(s) is None,
    decreases s.len(),
{
    if s.len() > 0 {
        assert(s.first() != ':');
        lemma_first_colon_none(s.drop_first(), i - 1);
    }
}

/// The resolution of key text `value` at line `lnum`: the full key, the
/// namespace, and whether the fallback was used.  Text with a `:` names its
/// namespace itself and is the key verbatim; otherwise the innermost
/// enclosing scope with a namespace applies; otherwise the fallback.
pub open spec fn sp_resolve(
    value: Seq<char>,
    lnum: u32,
    scopes: Seq<SScope>,
    fallback: Seq<char>,
) -> (Seq<char>, Seq<char>, bool) {
    match sp_first_colon(value) {
        Some(p) => (value, value.take(p), false),
        None => match sp_ns_at(scopes, lnum) {
            Some(ns) => (ns + ":"@ + value, ns, false),
            None => (fallback + ":"@ + value, fallback, true),
        },
    }
}

/// `a + ":" + b` as a string.
fn join_colon(a: &String, b: &String) -> (r: String)
    ensures
        r@ == a@ + ":"@ + b@,
{
    let mut out = a.clone();
    proof {
        reveal_strlit(":");
    }
    push_char(&mut out, ':');
    proof {
        assert(out@ =~= a@ + ":"@);
    }
    out.append(b.as_str());
    out
}

/// The record produced for a qualifying call whose first argument resolved
/// to `value`, or nothing when a line-range filter excludes it.
pub open spec fn sp_make_item(
    value: Seq<char>,
    span: crate::ast::Span,
    scopes: Seq<SScope>,
    fallback: Seq<char>,
    range: Option<Range>,
) -> Option<SScanItem> {
    let lnum = span.start_line;
    let in_range = match range {
        Some(r) => r.start_line <= lnum && lnum <= r.end_line,
        None => true,
    };
    if in_range {
        let (key, ns, fb) = sp_resolve(value, lnum, scopes, fallback);
        Some(
            SScanItem {
                key: key,
                raw: value,
                namespace: ns,
                lnum: lnum,
                col: span.start_col,
                end_col: span.end_col,
                fallback: fb,
            },
        )
    } else {
        None
    }
}

/// The record a call node yields, if it is a translation call whose first
/// argument is statically resolvable and the range filter keeps it.
pub open spec fn sp_check_call(
    callee: Option<Box<Expr>>,
    args: Seq<Arg>,
    line: u32,
    bs: Seq<SBinding>,
    scopes: Seq<SScope>,
    fallback: Seq<char>,
    range: Option<Range>,
) -> Option<SScanItem> {
    let named: Option<(Seq<char>, bool)> = match callee {
        Some(c) => match *c {
            Expr::Ident { name, line: l } => Some((name@, false)),
            Expr::Member { obj, prop, computed } => match prop {
                Some(p) => if p@ == "t"@ {
                    Some(("t"@, true))
                } else {
                    None
                },
                None => None,
            },
            _ => None,
        },
        None => None,
    };
    match named {
        None => None,
        Some((fname, is_member)) => {
            if is_hook_name(fname) {
                None
            } else if !is_member && !(fname == "t"@ || sp_alias_at(scopes, fname, line)) {
                None
            } else if args.len() == 0 {
                None
            } else {
                match sp_eval(args[0].expr, bs) {
                    None => None,
                    Some(value) => sp_make_item(value, args[0].span, scopes, fallback, range),
                }
            }
        },
    }
}


/// The environment a scan runs under: the collected constant bindings, the
/// collected namespace scopes, the fallback namespace, and the optional
/// line-range filter.
pub struct ScanEnv {
    pub bs: Seq<SBinding>,
    pub scopes: Seq<SScope>,
    pub fallback: Seq<char>,
    pub range: Option<Range>,
}

/// All usage records of the module, in source traversal order.
pub open spec fn v_module(m: Module, env: ScanEnv) -> Seq<SScanItem> {
    v_items(m.body@, env, Seq::empty())
}

pub open spec fn v_items(items: Seq<ModuleItem>, env: ScanEnv, acc: Seq<SScanItem>) -> Seq<
    SScanItem,
>
    decreases items, 1int,
{
    if items.len() == 0 {
        acc
    } else {
        v_items(items.drop_first(), env, v_item(items.first(), env, acc))
    }
}

pub open spec fn v_item(item: ModuleItem, env: ScanEnv, acc: Seq<SScanItem>) -> Seq<SScanItem>
    decreases item, 2int,
{
    match item {
        ModuleItem::Stmt(s) => v_stmt(s, env, acc),
        ModuleItem::ExportDecl(d) => v_decl(d, env, acc),
        ModuleItem::ExportDefaultExpr(e) => v_expr(*e, env, acc),
        ModuleItem::ExportDefaultFunc { body } => match body {
            Some(b) => v_stmts(b.stmts@, env, acc),
            None => acc,
        },
        ModuleItem::Other => acc,
    }
}

pub open spec fn v_stmts(ss: Seq<Stmt>, env: ScanEnv, acc: Seq<SScanItem>) -> Seq<SScanItem>
    decreases ss, 1int,
{
    if ss.len() == 0 {
        acc
    } else {
        v_stmts(ss.drop_first(), env, v_stmt(ss.first(), env, acc))
    }
}

pub open spec fn v_stmt(s: Stmt, env: ScanEnv, acc: Seq<SScanItem>) -> Seq<SScanItem>
    decreases s, 2int,
{
    match s {
        Stmt::Expr { expr } => v_expr(*expr, env, acc),
        Stmt::Decl(d) => v_decl(d, env, acc),
        Stmt::Return { arg } => match arg {
            Some(e) => v_expr(*e, env, acc),
            None => acc,
        },
        Stmt::Block { stmts } => v_stmts(stmts@, env, acc),
        Stmt::If { test, cons, alt } => {
            let a1 = v_expr(*test, env, acc);
            let a2 = v_stmt(*cons, env, a1);
            match alt {
                Some(a) => v_stmt(*a, env, a2),
                None => a2,
            }
        },
        Stmt::Switch { disc, cases } => v_cases(cases@, env, v_expr(*disc, env, acc)),
        Stmt::For { init, test, update, body } => v_stmt(*body, env, acc),
        Stmt::ForEach { left, right, body } => v_stmt(*body, env, acc),
        Stmt::While { test, body } => v_stmt(*body, env, v_expr(*test, env, acc)),
        Stmt::Try { block, handler, finalizer } => {
            let a1 = v_stmts(block@, env, acc);
            let a2 = match handler {
                Some(h) => v_stmts(h@, env, a1),
                None => a1,
            };
            match finalizer {
                Some(f) => v_stmts(f@, env, a2),
                None => a2,
            }
        },
        _ => acc,
    }
}

pub open spec fn v_cases(cs: Seq<SwitchCase>, env: ScanEnv, acc: Seq<SScanItem>) -> Seq<SScanItem>
    decreases cs, 1int,
{
    if cs.len() == 0 {
        acc
    } else {
        let c = cs.first();
        let a1 = match c.test {
            Some(t) => v_expr(*t, env, acc),
            None => acc,
        };
        v_cases(cs.drop_first(), env, v_stmts(c.cons@, env, a1))
    }
}

pub open spec fn v_decl(d: Decl, env: ScanEnv, acc: Seq<SScanItem>) -> Seq<SScanItem>
    decreases d, 3int,
{
    match d {
        Decl::Var(vd) => v_declarators(vd.decls@, env, acc),
        Decl::Func { body } => match body {
            Some(b) => v_stmts(b.stmts@, env, acc),
            None => acc,
        },
        Decl::Other => acc,
    }
}

pub open spec fn v_declarators(ds: Seq<VarDeclarator>, env: ScanEnv, acc: Seq<SScanItem>) -> Seq<
    SScanItem,
>
    decreases ds, 1int,
{
    if ds.len() == 0 {
        acc
    } else {
        let a1 = match ds.first().init {
            Some(e) => v_expr(*e, env, acc),
            None => acc,
        };
        v_declarators(ds.drop_first(), env, a1)
    }
}

pub open spec fn v_exprs(es: Seq<Expr>, env: ScanEnv, acc: Seq<SScanItem>) -> Seq<SScanItem>
    decreases es, 1int,
{
    if es.len() == 0 {
        acc
    } else {
        v_exprs(es.drop_first(), env, v_expr(es.first(), env, acc))
    }
}

pub open spec fn v_visit_args(args: Seq<Arg>, env: ScanEnv, acc: Seq<SScanItem>) -> Seq<SScanItem>
    decreases args, 1int,
{
    if args.len() == 0 {
        acc
    } else {
        v_visit_args(args.drop_first(), env, v_expr(args.first().expr, env, acc))
    }
}

pub open spec fn v_parts(ps: Seq<ObjectPart>, env: ScanEnv, acc: Seq<SScanItem>) -> Seq<SScanItem>
    decreases ps, 1int,
{
    if ps.len() == 0 {
        acc
    } else {
        let a1 = match ps.first() {
            ObjectPart::Value(e) => v_expr(e, env, acc),
            ObjectPart::Spread(e) => v_expr(e, env, acc),
            ObjectPart::Other => acc,
        };
        v_parts(ps.drop_first(), env, a1)
    }
}

pub open spec fn v_expr(e: Expr, env: ScanEnv, acc: Seq<SScanItem>) -> Seq<SScanItem>
    decreases e, 0int,
{
    match e {
        Expr::Call { callee, args, line } => {
            let a1 = match sp_check_call(
                callee,
                args@,
                line,
                env.bs,
                env.scopes,
                env.fallback,
                env.range,
            ) {
                Some(it) => acc.push(it),
                None => acc,
            };
            let a2 = v_visit_args(args@, env, a1);
            match callee {
                Some(c) => v_expr(*c, env, a2),
                None => a2,
            }
        },
        Expr::Arrow { body } => match body {
            ArrowBody::Block(b) => v_stmts(b.stmts@, env, acc),
            ArrowBody::Expr { expr, start_line, end_line } => v_expr(*expr, env, acc),
        },
        Expr::Func { body } => match body {
            Some(b) => v_stmts(b.stmts@, env, acc),
            None => acc,
        },
        Expr::Wrap { inner } => v_expr(*inner, env, acc),
        Expr::Add { left, right } => v_expr(*right, env, v_expr(*left, env, acc)),
        Expr::BinOther { left, right } => v_expr(*right, env, v_expr(*left, env, acc)),
        Expr::Cond { test, cons, alt } => v_expr(
            *alt,
            env,
            v_expr(*cons, env, v_expr(*test, env, acc)),
        ),
        Expr::Assign { right } => v_expr(*right, env, acc),
        Expr::Array { elems } => v_exprs(elems@, env, acc),
        Expr::Object { parts } => v_parts(parts@, env, acc),
        Expr::Tpl { quasis, exprs } => v_exprs(exprs@, env, acc),
        Expr::TaggedTpl { tag, exprs } => v_exprs(exprs@, env, v_expr(*tag, env, acc)),
        Expr::Comma { exprs } => v_exprs(exprs@, env, acc),
        Expr::Member { obj, prop, computed } => v_expr(*obj, env, acc),
        Expr::Jsx(el) => v_jsx_elem(*el, env, acc),
        Expr::JsxFrag { children } => v_children(children@, env, acc),
        Expr::Await { inner } => v_expr(*inner, env, acc),
        Expr::Yield { inner } => match inner {
            Some(i) => v_expr(*i, env, acc),
            None => acc,
        },
        Expr::Unary { inner } => v_expr(*inner, env, acc),
        _ => acc,
    }
}

pub open spec fn v_jsx_elem(el: JsxElem, env: ScanEnv, acc: Seq<SScanItem>) -> Seq<SScanItem>
    decreases el, 1int,
{
    v_children(el.children@, env, v_exprs(el.attrs@, env, acc))
}

pub open spec fn v_children(cs: Seq<JsxChild>, env: ScanEnv, acc: Seq<SScanItem>) -> Seq<SScanItem>
    decreases cs, 1int,
{
    if cs.len() == 0 {
        acc
    } else {
        v_children(cs.drop_first(), env, v_child(cs.first(), env, acc))
    }
}

pub open spec fn v_child(c: JsxChild, env: ScanEnv, acc: Seq<SScanItem>) -> Seq<SScanItem>
    decreases c, 2int,
{
    match c {
        JsxChild::Container { expr, span, expr_span } => match expr {
            Some(e) => v_expr(*e, env, acc),
            None => acc,
        },
        JsxChild::Elem(el) => v_jsx_elem(*el, env, acc),
        JsxChild::Frag { children } => v_children(children@, env, acc),
        _ => acc,
    }
}


// ---------------------------------------------------------------------------
// Exec scan.
// ---------------------------------------------------------------------------

/// The prefix of `s` before position `p`, as a string.
fn take_prefix(s: &Vec<char>, p: usize) -> (r: String)
    requires
        p <= s@.len(),
    ensures
        r@ == s@.take(p as int),
{
    let mut out = String::new();
    let mut k: usize = 0;
    proof {
        assert(out@ =~= s@.take(0));
    }
    while k < p
        invariant
            k <= p <= s@.len(),
            out@ == s@.take(k as int),
        decreases p - k,
    {
        push_char(&mut out, s[k]);
        proof {
            assert(out@ =~= s@.take(k as int + 1));
        }
        k += 1;
    }
    out
}

fn z_make_item(
    value: String,
    span: crate::ast::Span,
    scopes: &Vec<NamespaceScope>,
    fallback: &String,
    range: &Option<Range>,
) -> (r: Option<ScanItem>)
    ensures
        match r {
            Some(it) => sp_make_item(value@, span, ns_views(scopes@), fallback@, *range) == Some(
                si_view(it),
            ),
            None => sp_make_item(value@, span, ns_views(scopes@), fallback@, *range) is None,
        },
{
    let lnum = span.start_line;
    let in_range = match range {
        Some(r) => r.start_line <= lnum && lnum <= r.end_line,
        None => true,
    };
    if !in_range {
        return None;
    }
    let chars = string_chars(&value);
    let (key, ns, fb) = match first_colon(&chars) {
        Some(p) => {
            let ns = take_prefix(&chars, p);
            (value.clone(), ns, false)
        },
        None => match ns_at(scopes, lnum) {
            Some(ns) => (join_colon(&ns, &value), ns, false),
            None => (join_colon(fallback, &value), fallback.clone(), true),
        },
    };
    Some(
        ScanItem {
            key,
            raw: value,
            namespace: ns,
            lnum,
            col: span.start_col,
            end_col: span.end_col,
            fallback: fb,
        },
    )
}

fn z_check_call(
    callee: &Option<Box<Expr>>,
    args: &Vec<Arg>,
    line: u32,
    bs: &Vec<ConstBinding>,
    scopes: &Vec<NamespaceScope>,
    fallback: &String,
    range: &Option<Range>,
) -> (r: Option<ScanItem>)
    ensures
        match r {
            Some(it) => sp_check_call(
                *callee,
                args@,
                line,
                cb_views(bs@),
                ns_views(scopes@),
                fallback@,
                *range,
            ) == Some(si_view(it)),
            None => sp_check_call(
                *callee,
                args@,
                line,
                cb_views(bs@),
                ns_views(scopes@),
                fallback@,
                *range,
            ) is None,
        },
{
    let named: Option<(String, bool)> = match callee {
        Some(c) => match &**c {
            Expr::Ident { name, line: _l } => Some((name.clone(), false)),
            Expr::Member { obj: _o, prop, computed: _c2 } => match prop {
                Some(p) => {
                    if str_eq_lit(p, "t") {
                        Some((String::from_str("t"), true))
                    } else {
                        None
                    }
                },
                None => None,
            },
            _ => None,
        },
        None => None,
    };
    match named {
        None => None,
        Some((fname, is_member)) => {
            if hook_name_test(&fname) {
                return None;
            }
            if !is_member && !(str_eq_lit(&fname, "t") || alias_at(scopes, &fname, line)) {
                return None;
            }
            if args.len() == 0 {
                return None;
            }
            match eval_expr(&args[0].expr, bs) {
                None => None,
                Some(value) => z_make_item(value, args[0].span, scopes, fallback, range),
            }
        },
    }
}

/// Pushes `it` and relates the views.
fn push_item(out: &mut Vec<ScanItem>, it: ScanItem)
    ensures
        final(out)@ == old(out)@.push(it),
        si_views(final(out)@) == si_views(old(out)@).push(si_view(it)),
{
    let ghost old_out = out@;
    out.push(it);
    proof {
        assert(out@.drop_last() =~= old_out);
        assert(si_views(out@) == si_views(old_out).push(si_view(out@.last())));
    }
}

struct ZEnv<'a> {
    bs: &'a Vec<ConstBinding>,
    scopes: &'a Vec<NamespaceScope>,
    fallback: &'a String,
    range: &'a Option<Range>,
}

impl<'a> ZEnv<'a> {
    spec fn view(&self) -> ScanEnv {
        ScanEnv {
            bs: cb_views(self.bs@),
            scopes: ns_views(self.scopes@),
            fallback: self.fallback@,
            range: *self.range,
        }
    }
}

fn z_items(items: &Vec<ModuleItem>, env: &ZEnv, acc: Vec<ScanItem>) -> (r: Vec<ScanItem>)
    ensures
        si_views(r@) == v_items(items@, env.view(), si_views(acc@)),
    decreases *items, 1int,
{
    let mut acc = acc;
    let ghost acc0 = si_views(acc@);
    let mut i: usize = 0;
    proof {
        assert(items@.skip(0) =~= items@);
    }
    while i < items.len()
        invariant
            i <= items@.len(),
            v_items(items@, env.view(), acc0) == v_items(
                items@.skip(i as int),
                env.view(),
                si_views(acc@),
            ),
        decreases items@.len() - i,
    {
        proof {
            assert(items@.skip(i as int).first() == items@[i as int]);
            assert(items@.skip(i as int).drop_first() =~= items@.skip(i as int + 1));
            assert(decreases_to!(*items => items@[i as int]));
        }
        acc = z_item(&items[i], env, acc);
        i += 1;
    }
    proof {
        assert(items@.skip(i as int).len() == 0);
    }
    acc
}

fn z_item(item: &ModuleItem, env: &ZEnv, acc: Vec<ScanItem>) -> (r: Vec<ScanItem>)
    ensures
        si_views(r@) == v_item(*item, env.view(), si_views(acc@)),
    decreases *item, 2int,
{
    match item {
        ModuleItem::Stmt(s) => z_stmt(s, env, acc),
        ModuleItem::ExportDecl(d) => z_decl(d, env, acc),
        ModuleItem::ExportDefaultExpr(e) => z_expr(e, env, acc),
        ModuleItem::ExportDefaultFunc { body } => match body {
            Some(b) => z_stmts(&b.stmts, env, acc),
            None => acc,
        },
        ModuleItem::Other => acc,
    }
}

fn z_stmts(ss: &Vec<Stmt>, env: &ZEnv, acc: Vec<ScanItem>) -> (r: Vec<ScanItem>)
    ensures
        si_views(r@) == v_stmts(ss@, env.view(), si_views(acc@)),
    decreases *ss, 1int,
{
    let mut acc = acc;
    let ghost acc0 = si_views(acc@);
    let mut i: usize = 0;
    proof {
        assert(ss@.skip(0) =~= ss@);
    }
    while i < ss.len()
        invariant
            i <= ss@.len(),
            v_stmts(ss@, env.view(), acc0) == v_stmts(
                ss@.skip(i as int),
                env.view(),
                si_views(acc@),
            ),
        decreases ss@.len() - i,
    {
        proof {
            assert(ss@.skip(i as int).first() == ss@[i as int]);
            assert(ss@.skip(i as int).drop_first() =~= ss@.skip(i as int + 1));
            assert(decreases_to!(*ss => ss@[i as int]));
        }
        acc = z_stmt(&ss[i], env, acc);
        i += 1;
    }
    proof {
        assert(ss@.skip(i as int).len() == 0);
    }
    acc
}

#[verifier::rlimit(60)]
fn z_stmt(s: &Stmt, env: &ZEnv, acc: Vec<ScanItem>) -> (r: Vec<ScanItem>)
    ensures
        si_views(r@) == v_stmt(*s, env.view(), si_views(acc@)),
    decreases *s, 2int,
{
    match s {
        Stmt::Expr { expr } => z_expr(expr, env, acc),
        Stmt::Decl(d) => z_decl(d, env, acc),
        Stmt::Return { arg } => match arg {
            Some(e) => z_expr(e, env, acc),
            None => acc,
        },
        Stmt::Block { stmts } => z_stmts(stmts, env, acc),
        Stmt::If { test, cons, alt } => {
            let a1 = z_expr(test, env, acc);
            let a2 = z_stmt(cons, env, a1);
            match alt {
                Some(a) => z_stmt(a, env, a2),
                None => a2,
            }
        },
        Stmt::Switch { disc, cases } => {
            let a1 = z_expr(disc, env, acc);
            z_cases(cases, env, a1)
        },
        Stmt::For { init, test, update, body } => z_stmt(body, env, acc),
        Stmt::ForEach { left, right, body } => z_stmt(body, env, acc),
        Stmt::While { test, body } => {
            let a1 = z_expr(test, env, acc);
            z_stmt(body, env, a1)
        },
        Stmt::Try { block, handler, finalizer } => {
            let a1 = z_stmts(block, env, acc);
            let a2 = match handler {
                Some(h) => z_stmts(h, env, a1),
                None => a1,
            };
            match finalizer {
                Some(f) => z_stmts(f, env, a2),
                None => a2,
            }
        },
        _ => acc,
    }
}

fn z_cases(cs: &Vec<SwitchCase>, env: &ZEnv, acc: Vec<ScanItem>) -> (r: Vec<ScanItem>)
    ensures
        si_views(r@) == v_cases(cs@, env.view(), si_views(acc@)),
    decreases *cs, 1int,
{
    let mut acc = acc;
    let ghost acc0 = si_views(acc@);
    let mut i: usize = 0;
    proof {
        assert(cs@.skip(0) =~= cs@);
    }
    while i < cs.len()
        invariant
            i <= cs@.len(),
            v_cases(cs@, env.view(), acc0) == v_cases(
                cs@.skip(i as int),
                env.view(),
                si_views(acc@),
            ),
        decreases cs@.len() - i,
    {
        proof {
            assert(cs@.skip(i as int).first() == cs@[i as int]);
            assert(cs@.skip(i as int).drop_first() =~= cs@.skip(i as int + 1));
            assert(decreases_to!(*cs => cs@[i as int]));
        }
        let c = &cs[i];
        match &c.test {
            Some(t) => {
                acc = z_expr(t, env, acc);
            },
            None => {},
        }
        acc = z_stmts(&c.cons, env, acc);
        i += 1;
    }
    proof {
        assert(cs@.skip(i as int).len() == 0);
    }
    acc
}

fn z_decl(d: &Decl, env: &ZEnv, acc: Vec<ScanItem>) -> (r: Vec<ScanItem>)
    ensures
        si_views(r@) == v_decl(*d, env.view(), si_views(acc@)),
    decreases *d, 3int,
{
    match d {
        Decl::Var(vd) => {
            let mut acc = acc;
            let ghost acc0 = si_views(acc@);
            let ds = &vd.decls;
            let mut i: usize = 0;
            proof {
                assert(ds@.skip(0) =~= ds@);
            }
            while i < ds.len()
                invariant
                    i <= ds@.len(),
                    decreases_to!(*d => *ds),
                    v_declarators(ds@, env.view(), acc0) == v_declarators(
                        ds@.skip(i as int),
                        env.view(),
                        si_views(acc@),
                    ),
                decreases ds@.len() - i,
            {
                proof {
                    assert(ds@.skip(i as int).first() == ds@[i as int]);
                    assert(ds@.skip(i as int).drop_first() =~= ds@.skip(i as int + 1));
                    assert(decreases_to!(*ds => ds@[i as int]));
                }
                match &ds[i].init {
                    Some(e) => {
                        proof {
                            assert(decreases_to!(*ds => ds@[i as int].init));
                        }
                        acc = z_expr(e, env, acc);
                    },
                    None => {},
                }
                i += 1;
            }
            proof {
                assert(ds@.skip(i as int).len() == 0);
            }
            acc
        },
        Decl::Func { body } => match body {
            Some(b) => z_stmts(&b.stmts, env, acc),
            None => acc,
        },
        Decl::Other => acc,
    }
}

fn z_exprs(es: &Vec<Expr>, env: &ZEnv, acc: Vec<ScanItem>) -> (r: Vec<ScanItem>)
    ensures
        si_views(r@) == v_exprs(es@, env.view(), si_views(acc@)),
    decreases *es, 1int,
{
    let mut acc = acc;
    let ghost acc0 = si_views(acc@);
    let mut i: usize = 0;
    proof {
        assert(es@.skip(0) =~= es@);
    }
    while i < es.len()
        invariant
            i <= es@.len(),
            v_exprs(es@, env.view(), acc0) == v_exprs(
                es@.skip(i as int),
                env.view(),
                si_views(acc@),
            ),
        decreases es@.len() - i,
    {
        proof {
            assert(es@.skip(i as int).first() == es@[i as int]);
            assert(es@.skip(i as int).drop_first() =~= es@.skip(i as int + 1));
            assert(decreases_to!(*es => es@[i as int]));
        }
        acc = z_expr(&es[i], env, acc);
        i += 1;
    }
    proof {
        assert(es@.skip(i as int).len() == 0);
    }
    acc
}

fn z_visit_args(args: &Vec<Arg>, env: &ZEnv, acc: Vec<ScanItem>) -> (r: Vec<ScanItem>)
    ensures
        si_views(r@) == v_visit_args(args@, env.view(), si_views(acc@)),
    decreases *args, 1int,
{
    let mut acc = acc;
    let ghost acc0 = si_views(acc@);
    let mut i: usize = 0;
    proof {
        assert(args@.skip(0) =~= args@);
    }
    while i < args.len()
        invariant
            i <= args@.len(),
            v_visit_args(args@, env.view(), acc0) == v_visit_args(
                args@.skip(i as int),
                env.view(),
                si_views(acc@),
            ),
        decreases args@.len() - i,
    {
        proof {
            assert(args@.skip(i as int).first() == args@[i as int]);
            assert(args@.skip(i as int).drop_first() =~= args@.skip(i as int + 1));
            assert(decreases_to!(*args => args@[i as int]));
            assert(decreases_to!(*args => args@[i as int].expr));
        }
        acc = z_expr(&args[i].expr, env, acc);
        i += 1;
    }
    proof {
        assert(args@.skip(i as int).len() == 0);
    }
    acc
}

fn z_parts(ps: &Vec<ObjectPart>, env: &ZEnv, acc: Vec<ScanItem>) -> (r: Vec<ScanItem>)
    ensures
        si_views(r@) == v_parts(ps@, env.view(), si_views(acc@)),
    decreases *ps, 1int,
{
    let mut acc = acc;
    let ghost acc0 = si_views(acc@);
    let mut i: usize = 0;
    proof {
        assert(ps@.skip(0) =~= ps@);
    }
    while i < ps.len()
        invariant
            i <= ps@.len(),
            v_parts(ps@, env.view(), acc0) == v_parts(
                ps@.skip(i as int),
                env.view(),
                si_views(acc@),
            ),
        decreases ps@.len() - i,
    {
        proof {
            assert(ps@.skip(i as int).first() == ps@[i as int]);
            assert(ps@.skip(i as int).drop_first() =~= ps@.skip(i as int + 1));
            assert(decreases_to!(*ps => ps@[i as int]));
        }
        match &ps[i] {
            ObjectPart::Value(e) => {
                acc = z_expr(e, env, acc);
            },
            ObjectPart::Spread(e) => {
                acc = z_expr(e, env, acc);
            },
            ObjectPart::Other => {},
        }
        i += 1;
    }
    proof {
        assert(ps@.skip(i as int).len() == 0);
    }
    acc
}

#[verifier::rlimit(60)]
fn z_expr(e: &Expr, env: &ZEnv, acc: Vec<ScanItem>) -> (r: Vec<ScanItem>)
    ensures
        si_views(r@) == v_expr(*e, env.view(), si_views(acc@)),
    decreases *e, 0int,
{
    match e {
        Expr::Call { callee, args, line } => {
            let mut acc = acc;
            match z_check_call(callee, args, *line, env.bs, env.scopes, env.fallback, env.range) {
                Some(it) => {
                    push_item(&mut acc, it);
                },
                None => {},
            }
            let a2 = z_visit_args(args, env, acc);
            match callee {
                Some(c) => z_expr(c, env, a2),
                None => a2,
            }
        },
        Expr::Arrow { body } => match body {
            ArrowBody::Block(b) => z_stmts(&b.stmts, env, acc),
            ArrowBody::Expr { expr, start_line, end_line } => z_expr(expr, env, acc),
        },
        Expr::Func { body } => match body {
            Some(b) => z_stmts(&b.stmts, env, acc),
            None => acc,
        },
        Expr::Wrap { inner } => z_expr(inner, env, acc),
        Expr::Add { left, right } => {
            let a1 = z_expr(left, env, acc);
            z_expr(right, env, a1)
        },
        Expr::BinOther { left, right } => {
            let a1 = z_expr(left, env, acc);
            z_expr(right, env, a1)
        },
        Expr::Cond { test, cons, alt } => {
            let a1 = z_expr(test, env, acc);
            let a2 = z_expr(cons, env, a1);
            z_expr(alt, env, a2)
        },
        Expr::Assign { right } => z_expr(right, env, acc),
        Expr::Array { elems } => z_exprs(elems, env, acc),
        Expr::Object { parts } => z_parts(parts, env, acc),
        Expr::Tpl { quasis, exprs } => z_exprs(exprs, env, acc),
        Expr::TaggedTpl { tag, exprs } => {
            let a1 = z_expr(tag, env, acc);
            z_exprs(exprs, env, a1)
        },
        Expr::Comma { exprs } => z_exprs(exprs, env, acc),
        Expr::Member { obj, prop, computed } => z_expr(obj, env, acc),
        Expr::Jsx(el) => z_jsx_elem(el, env, acc),
        Expr::JsxFrag { children } => z_children(children, env, acc),
        Expr::Await { inner } => z_expr(inner, env, acc),
        Expr::Yield { inner } => match inner {
            Some(i) => z_expr(i, env, acc),
            None => acc,
        },
        Expr::Unary { inner } => z_expr(inner, env, acc),
        _ => acc,
    }
}

fn z_jsx_elem(el: &JsxElem, env: &ZEnv, acc: Vec<ScanItem>) -> (r: Vec<ScanItem>)
    ensures
        si_views(r@) == v_jsx_elem(*el, env.view(), si_views(acc@)),
    decreases *el, 1int,
{
    let a1 = z_exprs(&el.attrs, env, acc);
    z_children(&el.children, env, a1)
}

fn z_children(cs: &Vec<JsxChild>, env: &ZEnv, acc: Vec<ScanItem>) -> (r: Vec<ScanItem>)
    ensures
        si_views(r@) == v_children(cs@, env.view(), si_views(acc@)),
    decreases *cs, 1int,
{
    let mut acc = acc;
    let ghost acc0 = si_views(acc@);
    let mut i: usize = 0;
    proof {
        assert(cs@.skip(0) =~= cs@);
    }
    while i < cs.len()
        invariant
            i <= cs@.len(),
            v_children(cs@, env.view(), acc0) == v_children(
                cs@.skip(i as int),
                env.view(),
                si_views(acc@),
            ),
        decreases cs@.len() - i,
    {
        proof {
            assert(cs@.skip(i as int).first() == cs@[i as int]);
            assert(cs@.skip(i as int).drop_first() =~= cs@.skip(i as int + 1));
            assert(decreases_to!(*cs => cs@[i as int]));
        }
        acc = z_child(&cs[i], env, acc);
        i += 1;
    }
    proof {
        assert(cs@.skip(i as int).len() == 0);
    }
    acc
}

fn z_child(c: &JsxChild, env: &ZEnv, acc: Vec<ScanItem>) -> (r: Vec<ScanItem>)
    ensures
        si_views(r@) == v_child(*c, env.view(), si_views(acc@)),
    decreases *c, 2int,
{
    match c {
        JsxChild::Container { expr, span, expr_span } => match expr {
            Some(e) => z_expr(e, env, acc),
            None => acc,
        },
        JsxChild::Elem(el) => z_jsx_elem(el, env, acc),
        JsxChild::Frag { children } => z_children(children, env, acc),
        _ => acc,
    }
}

/// All usage records of the module, in source traversal order, under the
/// given constant bindings, scopes, fallback namespace and range filter.
pub fn extract_items(
    m: &Module,
    bs: &Vec<ConstBinding>,
    scopes: &Vec<NamespaceScope>,
    fallback: &String,
    range: &Option<Range>,
) -> (r: Vec<ScanItem>)
    ensures
        si_views(r@) == v_module(
            *m,
            ScanEnv {
                bs: cb_views(bs@),
                scopes: ns_views(scopes@),
                fallback: fallback@,
                range: *range,
            },
        ),
{
    let env = ZEnv { bs, scopes, fallback, range };
    proof {
        assert(si_views(Seq::<ScanItem>::empty()) =~= Seq::<SScanItem>::empty());
    }
    z_items(&m.body, &env, Vec::new())
}


// ---------------------------------------------------------------------------
// The public analyses over source text.
// ---------------------------------------------------------------------------

/// What a source-analysis request carries: the source text, the dialect
/// tag (`tsx`, `typescript`, `jsx`, or anything else for plain JavaScript
/// with JSX), the fallback namespace, and an optional line-range filter.
pub struct ExtractParams {
    pub source: String,
    pub lang: String,
    pub fallback_namespace: String,
    pub range: Option<Range>,
}

/// A request for the translation context at one row.
pub struct TranslationContextParams {
    pub source: String,
    pub lang: String,
    pub row: u32,
    pub fallback_namespace: String,
}

/// The translation context governing a row: the namespace and translation
/// function that apply there, whether an enclosing hook scope was found, and
/// whether the file has any hook scope at all.
pub struct TranslationContext {
    pub namespace: String,
    pub t_func: String,
    pub found_hook: bool,
    pub has_any_hook: bool,
}

/// Message given when the source is too large to analyze, a machine limit.
pub open spec fn spec_size_msg() -> Seq<char> {
    "source too large to analyze"@
}

/// Message given when the serialized tree cannot be read back; the parser
/// does not produce such output.
pub open spec fn spec_tree_msg() -> Seq<char> {
    "serialized syntax tree was not readable"@
}

/// Everything `extract` promises: parse failure surfaces as exactly the
/// parser's message; otherwise the result is the traversal-ordered record
/// list of the module the parser's serialized tree denotes, scanned under
/// the collected constants and scopes, the given fallback and range.
pub open spec fn extract_post(
    source: Seq<char>,
    lang: Seq<char>,
    fallback: Seq<char>,
    range: Option<Range>,
    r: Result<Seq<SScanItem>, Seq<char>>,
) -> bool {
    let flags = spec_dialect_flags(lang);
    if source.len() >= 0x4000_0000 {
        r == Err::<Seq<SScanItem>, Seq<char>>(spec_size_msg())
    } else {
        match parse_result_of(source, flags.0, flags.1) {
            Err(e) => r == Err::<Seq<SScanItem>, Seq<char>>(e),
            Ok((json, base)) => match sp_json(json) {
                None => r == Err::<Seq<SScanItem>, Seq<char>>(spec_tree_msg()),
                Some(j) => exists|m: Module|
                    #![trigger rel_module(j, source, base, m)]
                    rel_module(j, source, base, m) && r == Ok::<Seq<SScanItem>, Seq<char>>(
                        v_module(
                            m,
                            ScanEnv {
                                bs: cc_module(m),
                                scopes: sc_module(m, cc_module(m)),
                                fallback: fallback,
                                range: range,
                            },
                        ),
                    ),
            },
        }
    }
}


proof fn lemma_extract_post_ok(
    source: Seq<char>,
    lang: Seq<char>,
    fallback: Seq<char>,
    range: Option<Range>,
    json: Seq<char>,
    base: u32,
    j: crate::json::SJson,
    m: Module,
    items: Seq<SScanItem>,
)
    requires
        source.len() < 0x4000_0000,
        parse_result_of(source, spec_dialect_flags(lang).0, spec_dialect_flags(lang).1) == Ok::<
            (Seq<char>, u32),
            Seq<char>,
        >((json, base)),
        sp_json(json) == Some(j),
        rel_module(j, source, base, m),
        items == v_module(
            m,
            ScanEnv {
                bs: cc_module(m),
                scopes: sc_module(m, cc_module(m)),
                fallback: fallback,
                range: range,
            },
        ),
    ensures
        extract_post(source, lang, fallback, range, Ok(items)),
{
    let r = Ok::<Seq<SScanItem>, Seq<char>>(items);
    assert(rel_module(j, source, base, m) && r == Ok::<Seq<SScanItem>, Seq<char>>(
        v_module(
            m,
            ScanEnv {
                bs: cc_module(m),
                scopes: sc_module(m, cc_module(m)),
                fallback: fallback,
                range: range,
            },
        ),
    ));
    assert(exists|m2: Module|
        #![trigger rel_module(j, source, base, m2)]
        rel_module(j, source, base, m2) && r == Ok::<Seq<SScanItem>, Seq<char>>(
            v_module(
                m2,
                ScanEnv {
                    bs: cc_module(m2),
                    scopes: sc_module(m2, cc_module(m2)),
                    fallback: fallback,
                    range: range,
                },
            ),
        ));
    let flags = spec_dialect_flags(lang);
    let pr = parse_result_of(source, flags.0, flags.1);
    assert(pr is Ok);
    assert(pr->Ok_0.0 == json);
    assert(pr->Ok_0.1 == base);
    assert(sp_json(pr->Ok_0.0) == Some(j));
}

proof fn lemma_context_post_ok(
    source: Seq<char>,
    lang: Seq<char>,
    row: u32,
    fallback: Seq<char>,
    json: Seq<char>,
    base: u32,
    j: crate::json::SJson,
    m: Module,
    out: (Seq<char>, Seq<char>, bool, bool),
)
    requires
        source.len() < 0x4000_0000,
        parse_result_of(source, spec_dialect_flags(lang).0, spec_dialect_flags(lang).1) == Ok::<
            (Seq<char>, u32),
            Seq<char>,
        >((json, base)),
        sp_json(json) == Some(j),
        rel_module(j, source, base, m),
        ({
            let scopes = sc_module(m, cc_module(m));
            let found = sp_scope_at(scopes, row);
            out == (
                match found {
                    Some(s) => match s.ns {
                        Some(n) => n,
                        None => fallback,
                    },
                    None => fallback,
                },
                match found {
                    Some(s) => match s.t_func {
                        Some(t) => t,
                        None => "t"@,
                    },
                    None => "t"@,
                },
                found is Some,
                scopes.len() > 0,
            )
        }),
    ensures
        context_post(source, lang, row, fallback, Ok(out)),
{
    let r = Ok::<(Seq<char>, Seq<char>, bool, bool), Seq<char>>(out);
    assert(exists|m2: Module|
        #![trigger rel_module(j, source, base, m2)]
        rel_module(j, source, base, m2) && {
            let scopes = sc_module(m2, cc_module(m2));
            let found = sp_scope_at(scopes, row);
            r == Ok::<(Seq<char>, Seq<char>, bool, bool), Seq<char>>(
                (
                    match found {
                        Some(s) => match s.ns {
                            Some(n) => n,
                            None => fallback,
                        },
                        None => fallback,
                    },
                    match found {
                        Some(s) => match s.t_func {
                            Some(t) => t,
                            None => "t"@,
                        },
                        None => "t"@,
                    },
                    found is Some,
                    scopes.len() > 0,
                ),
            )
        }) by {
        assert(rel_module(j, source, base, m) && {
            let scopes = sc_module(m, cc_module(m));
            let found = sp_scope_at(scopes, row);
            r == Ok::<(Seq<char>, Seq<char>, bool, bool), Seq<char>>(
                (
                    match found {
                        Some(s) => match s.ns {
                            Some(n) => n,
                            None => fallback,
                        },
                        None => fallback,
                    },
                    match found {
                        Some(s) => match s.t_func {
                            Some(t) => t,
                            None => "t"@,
                        },
                        None => "t"@,
                    },
                    found is Some,
                    scopes.len() > 0,
                ),
            )
        });
    }
    let flags = spec_dialect_flags(lang);
    let pr = parse_result_of(source, flags.0, flags.1);
    assert(pr is Ok);
    assert(pr->Ok_0.0 == json);
    assert(pr->Ok_0.1 == base);
    assert(sp_json(pr->Ok_0.0) == Some(j));
}


/// Running extraction twice on identical input settles success identically,
/// and a failed run yields the identical error both times: whether a source
/// parses, and with which message it fails, is a function of the request
/// alone.  (That a successful run's record list is also identical is shown
/// by test runs; the record list is pinned by `extract_post` through the
/// decoded tree of the parser's one serialized output.)
pub proof fn lemma_extract_failure_deterministic(
    source: Seq<char>,
    lang: Seq<char>,
    fallback: Seq<char>,
    range: Option<Range>,
    r1: Result<Seq<SScanItem>, Seq<char>>,
    r2: Result<Seq<SScanItem>, Seq<char>>,
)
    requires
        extract_post(source, lang, fallback, range, r1),
        extract_post(source, lang, fallback, range, r2),
    ensures
        r1 is Err <==> r2 is Err,
        r1 is Err ==> r1 == r2,
{
    let flags = spec_dialect_flags(lang);
    if source.len() < 0x4000_0000 {
        match parse_result_of(source, flags.0, flags.1) {
            Err(e) => {},
            Ok((json, base)) => {
                match sp_json(json) {
                    None => {},
                    Some(j) => {
                        assert(r1 is Ok);
                        assert(r2 is Ok);
                    },
                }
            },
        }
    }
}

/// Extracts every translation-call usage record from the source.
pub fn extract(params: ExtractParams) -> (r: Result<Vec<ScanItem>, ParseError>)
    ensures
        r is Ok ==> extract_post(
            params.source@,
            params.lang@,
            params.fallback_namespace@,
            params.range,
            Ok(si_views(r->Ok_0@)),
        ),
        r is Err ==> extract_post(
            params.source@,
            params.lang@,
            params.fallback_namespace@,
            params.range,
            Err(r->Err_0.message@),
        ),
{
    let chars = string_chars(&params.source);
    if chars.len() >= 0x4000_0000 {
        proof {
            reveal_strlit("source too large to analyze");
        }
        return Err(ParseError { message: String::from_str("source too large to analyze") });
    }
    let (ts, jsx) = dialect_flags(&params.lang);
    match parse_source_json(params.source.as_str(), ts, jsx) {
        Err(e) => Err(ParseError { message: e }),
        Ok((json, base)) => {
            let jchars = string_chars(&json);
            match parse_json(jchars.as_slice()) {
                None => Err(
                    ParseError {
                        message: String::from_str("serialized syntax tree was not readable"),
                    },
                ),
                Some(jv) => {
                    let li = LineIndex { chars, base };
                    let m = dec_module(&jv, &li);
                    let bs = collect_consts(&m);
                    let scopes = collect_scopes(&m, &bs);
                    let items = extract_items(
                        &m,
                        &bs,
                        &scopes,
                        &params.fallback_namespace,
                        &params.range,
                    );
                    proof {
                        assert((ts, jsx) == spec_dialect_flags(params.lang@));
                        assert(spec_dialect_flags(params.lang@).0 == ts);
                        assert(spec_dialect_flags(params.lang@).1 == jsx);
                        lemma_extract_post_ok(
                            params.source@,
                            params.lang@,
                            params.fallback_namespace@,
                            params.range,
                            json@,
                            base,
                            jv@,
                            m,
                            si_views(items@),
                        );
                    }
                    Ok(items)
                },
            }
        },
    }
}

/// Everything `translation_context_at` promises, phrased over the scopes of
/// the module the parser's serialized tree denotes.
pub open spec fn context_post(
    source: Seq<char>,
    lang: Seq<char>,
    row: u32,
    fallback: Seq<char>,
    r: Result<(Seq<char>, Seq<char>, bool, bool), Seq<char>>,
) -> bool {
    let flags = spec_dialect_flags(lang);
    if source.len() >= 0x4000_0000 {
        r == Err::<(Seq<char>, Seq<char>, bool, bool), Seq<char>>(spec_size_msg())
    } else {
        match parse_result_of(source, flags.0, flags.1) {
            Err(e) => r == Err::<(Seq<char>, Seq<char>, bool, bool), Seq<char>>(e),
            Ok((json, base)) => match sp_json(json) {
                None => r == Err::<(Seq<char>, Seq<char>, bool, bool), Seq<char>>(spec_tree_msg()),
                Some(j) => exists|m: Module|
                    #![trigger rel_module(j, source, base, m)]
                    rel_module(j, source, base, m) && {
                        let scopes = sc_module(m, cc_module(m));
                        let found = sp_scope_at(scopes, row);
                        r == Ok::<(Seq<char>, Seq<char>, bool, bool), Seq<char>>(
                            (
                                match found {
                                    Some(s) => match s.ns {
                                        Some(n) => n,
                                        None => fallback,
                                    },
                                    None => fallback,
                                },
                                match found {
                                    Some(s) => match s.t_func {
                                        Some(t) => t,
                                        None => "t"@,
                                    },
                                    None => "t"@,
                                },
                                found is Some,
                                scopes.len() > 0,
                            ),
                        )
                    },
            },
        }
    }
}

/// The translation context that would govern a call on `row`: the namespace
/// and translation-function alias of the innermost enclosing hook scope,
/// defaulting to the fallback namespace and to `t`.
pub fn translation_context_at(params: TranslationContextParams) -> (r: Result<
    TranslationContext,
    ParseError,
>)
    ensures
        r is Ok ==> context_post(
            params.source@,
            params.lang@,
            params.row,
            params.fallback_namespace@,
            Ok((r->Ok_0.namespace@, r->Ok_0.t_func@, r->Ok_0.found_hook, r->Ok_0.has_any_hook)),
        ),
        r is Err ==> context_post(
            params.source@,
            params.lang@,
            params.row,
            params.fallback_namespace@,
            Err(r->Err_0.message@),
        ),
{
    let chars = string_chars(&params.source);
    if chars.len() >= 0x4000_0000 {
        proof {
            reveal_strlit("source too large to analyze");
        }
        return Err(ParseError { message: String::from_str("source too large to analyze") });
    }
    let (ts, jsx) = dialect_flags(&params.lang);
    match parse_source_json(params.source.as_str(), ts, jsx) {
        Err(e) => Err(ParseError { message: e }),
        Ok((json, base)) => {
            let jchars = string_chars(&json);
            match parse_json(jchars.as_slice()) {
                None => Err(
                    ParseError {
                        message: String::from_str("serialized syntax tree was not readable"),
                    },
                ),
                Some(jv) => {
                    let li = LineIndex { chars, base };
                    let m = dec_module(&jv, &li);
                    let bs = collect_consts(&m);
                    let scopes = collect_scopes(&m, &bs);
                    let found = scope_at(&scopes, params.row);
                    let has_any_hook = scopes.len() > 0;
                    let (namespace, t_func, found_hook) = match found {
                        Some(bi) => {
                            proof {
                                crate::scopes::lemma_ns_views_index(scopes@, bi as int);
                            }
                            let s = &scopes[bi];
                            let ns = match &s.ns {
                                Some(n) => n.clone(),
                                None => params.fallback_namespace.clone(),
                            };
                            let tf = match &s.t_func {
                                Some(t) => t.clone(),
                                None => String::from_str("t"),
                            };
                            (ns, tf, true)
                        },
                        None => (
                            params.fallback_namespace.clone(),
                            String::from_str("t"),
                            false,
                        ),
                    };
                    proof {
                        assert(spec_dialect_flags(params.lang@).0 == ts);
                        assert(spec_dialect_flags(params.lang@).1 == jsx);
                        let ghost rr = Ok::<(Seq<char>, Seq<char>, bool, bool), Seq<char>>(
                            (namespace@, t_func@, found_hook, has_any_hook),
                        );
                        assert(rel_module(jv@, params.source@, base, m) && {
                            let scopes_v = sc_module(m, cc_module(m));
                            let found_v = sp_scope_at(scopes_v, params.row);
                            rr == Ok::<(Seq<char>, Seq<char>, bool, bool), Seq<char>>(
                                (
                                    match found_v {
                                        Some(s) => match s.ns {
                                            Some(n) => n,
                                            None => params.fallback_namespace@,
                                        },
                                        None => params.fallback_namespace@,
                                    },
                                    match found_v {
                                        Some(s) => match s.t_func {
                                            Some(t) => t,
                                            None => "t"@,
                                        },
                                        None => "t"@,
                                    },
                                    found_v is Some,
                                    scopes_v.len() > 0,
                                ),
                            )
                        }) by {
                            crate::scopes::lemma_ns_views_len(scopes@);
                        }
                        lemma_context_post_ok(
                            params.source@,
                            params.lang@,
                            params.row,
                            params.fallback_namespace@,
                            json@,
                            base,
                            jv@,
                            m,
                            (namespace@, t_func@, found_hook, has_any_hook),
                        );
                    }
                    Ok(TranslationContext { namespace, t_func, found_hook, has_any_hook })
                },
            }
        },
    }
}

} // verus!
