//! The hardcoded-text detector: finds literal text inside JSX children that
//! a user will see but that no translation mechanism covers.
//!
//! The traversal tracks whether any enclosing call is named `t` and whether
//! any enclosing JSX element is an excluded wrapper component (matched by
//! its full dotted name or its last dot-segment).  A JSX text child is
//! reported with its whitespace runs collapsed to single spaces and the ends
//! trimmed; an expression-container child is reported when its expression is
//! a string literal or an interpolation-free template.  A record is emitted
//! only when the candidate text's length in bytes meets the configured
//! minimum and neither guard trips.  Results are ordered by position, equal
//! positions keeping traversal order.

use vstd::prelude::*;

use crate::ast::Arg;
use crate::ast::ArrowBody;
use crate::ast::Decl;
use crate::ast::Expr;
use crate::ast::JsxChild;
use crate::ast::JsxElem;
use crate::ast::Module;
use crate::ast::ModuleItem;
use crate::ast::ObjectPart;
use crate::ast::Span;
use crate::ast::Stmt;
use crate::ast::VarDeclarator;
use crate::consts::cc_module;
use crate::consts::sp_quasis_cat;
use crate::decode::dec_module;
use crate::decode::rel_module;
use crate::json::is_ws;
use crate::json::parse_json;
use crate::json::sp_json;
use crate::lines::LineIndex;
use crate::parse::ParseError;
use crate::parse::dialect_flags;
use crate::parse::parse_result_of;
use crate::parse::parse_source_json;
use crate::parse::spec_dialect_flags;
use crate::scan::Range;
use crate::text::push_char;
use crate::text::spec_utf8_len;
use crate::text::string_chars;
use crate::text::utf8_len;

verus! {

/// Mathematical model of a hardcoded-text record.
pub struct SHardItem {
    pub lnum: u32,
    pub col: u32,
    pub end_lnum: u32,
    pub end_col: u32,
    pub text: Seq<char>,
    pub kind: Seq<char>,
}

/// One hardcoded-text finding: its position, the text, and its kind,
/// `jsx_text` or `jsx_literal`.
pub struct HardcodedItem {
    pub lnum: u32,
    pub col: u32,
    pub end_lnum: u32,
    pub end_col: u32,
    pub text: String,
    pub kind: String,
}

pub open spec fn hi_view(h: HardcodedItem) -> SHardItem {
    SHardItem {
        lnum: h.lnum,
        col: h.col,
        end_lnum: h.end_lnum,
        end_col: h.end_col,
        text: h.text@,
        kind: h.kind@,
    }
}

pub open spec fn hi_views(s: Seq<HardcodedItem>) -> Seq<SHardItem>
    decreases s,
{
    if s.len() == 0 {
        Seq::empty()
    } else {
        hi_views(s.drop_last()).push(hi_view(s.last()))
    }
}

pub broadcast proof fn lemma_hi_views_index(s: Seq<HardcodedItem>, i: int)
    requires
        0 <= i < s.len(),
    ensures
        #[trigger] hi_views(s)[i] == hi_view(s[i]),
        hi_views(s).len() == s.len(),
    decreases s,
{
    if s.len() > 0 {
        if i < s.len() - 1 {
            lemma_hi_views_index(s.drop_last(), i);
        } else {
            lemma_hi_views_len(s.drop_last());
        }
    }
}

pub broadcast proof fn lemma_hi_views_len(s: Seq<HardcodedItem>)
    ensures
        #[trigger] hi_views(s).len() == s.len(),
    decreases s,
{
    if s.len() > 0 {
        lemma_hi_views_len(s.drop_last());
    }
}

pub open spec fn strs_views(s: Seq<String>) -> Seq<Seq<char>>
    decreases s,
{
    if s.len() == 0 {
        Seq::empty()
    } else {
        strs_views(s.drop_last()).push(s.last()@)
    }
}

pub broadcast proof fn lemma_strs_views_index(s: Seq<String>, i: int)
    requires
        0 <= i < s.len(),
    ensures
        #[trigger] strs_views(s)[i] == s[i]@,
        strs_views(s).len() == s.len(),
    decreases s,
{
    if s.len() > 0 {
        if i < s.len() - 1 {
            lemma_strs_views_index(s.drop_last(), i);
        } else {
            lemma_strs_views_len(s.drop_last());
        }
    }
}

pub broadcast proof fn lemma_strs_views_len(s: Seq<String>)
    ensures
        #[trigger] strs_views(s).len() == s.len(),
    decreases s,
{
    if s.len() > 0 {
        lemma_strs_views_len(s.drop_last());
    }
}

// ---------------------------------------------------------------------------
// Text helpers.
// ---------------------------------------------------------------------------

/// Whitespace runs collapsed to single spaces, ends trimmed; scanned from
/// `i` with `out` built so far and `pending` recording an unemitted run.
pub open spec fn sp_norm_from(s: Seq<char>, i: int, out: Seq<char>, pending: bool) -> Seq<char>
    decreases s.len() - i,
{
    if i < 0 || i >= s.len() {
        out
    } else if is_ws(s[i]) {
        sp_norm_from(s, i + 1, out, true)
    } else {
        let out2 = if pending && out.len() > 0 {
            out.push(' ').push(s[i])
        } else {
            out.push(s[i])
        };
        sp_norm_from(s, i + 1, out2, false)
    }
}

/// The text with whitespace runs collapsed to single spaces and the ends
/// trimmed.
pub open spec fn sp_normalize(s: Seq<char>) -> Seq<char> {
    sp_norm_from(s, 0, Seq::empty(), false)
}

pub fn normalize_ws(s: &String) -> (r: String)
    ensures
        r@ == sp_normalize(s@),
{
    let cs = string_chars(s);
    let mut out = String::new();
    let mut pending = false;
    let mut i: usize = 0;
    while i < cs.len()
        invariant
            i <= cs@.len(),
            cs@ == s@,
            sp_normalize(s@) == sp_norm_from(s@, i as int, out@, pending),
        decreases cs@.len() - i,
    {
        let c = cs[i];
        if c == ' ' || c == '\n' || c == '\r' || c == '\t' {
            pending = true;
        } else {
            if pending && out.unicode_len() > 0 {
                push_char(&mut out, ' ');
            }
            push_char(&mut out, c);
            pending = false;
        }
        i += 1;
    }
    out
}

/// Index of the first non-whitespace character.
pub open spec fn sp_trim_start(s: Seq<char>, i: int) -> int
    decreases s.len() - i,
{
    if 0 <= i < s.len() && is_ws(s[i]) {
        sp_trim_start(s, i + 1)
    } else {
        i
    }
}

/// One past the index of the last non-whitespace character at or after `a`.
pub open spec fn sp_trim_end(s: Seq<char>, a: int, e: int) -> int
    decreases e,
{
    if e > a && e - 1 < s.len() && e >= 1 && is_ws(s[e - 1]) {
        sp_trim_end(s, a, e - 1)
    } else {
        e
    }
}

/// The text with leading and trailing whitespace removed.
pub open spec fn sp_trim(s: Seq<char>) -> Seq<char> {
    let a = sp_trim_start(s, 0);
    let b = sp_trim_end(s, a, s.len() as int);
    if a <= b {
        s.subrange(a, b)
    } else {
        Seq::empty()
    }
}

pub fn trim_chars(cs: &Vec<char>) -> (r: String)
    ensures
        r@ == sp_trim(cs@),
{
    let mut a: usize = 0;
    while a < cs.len() && (cs[a] == ' ' || cs[a] == '\n' || cs[a] == '\r' || cs[a] == '\t')
        invariant
            a <= cs@.len(),
            sp_trim_start(cs@, 0) == sp_trim_start(cs@, a as int),
        decreases cs@.len() - a,
    {
        a += 1;
    }
    let mut b: usize = cs.len();
    proof {
        assert(sp_trim_start(cs@, a as int) == a as int);
    }
    while b > a && (cs[b - 1] == ' ' || cs[b - 1] == '\n' || cs[b - 1] == '\r' || cs[b - 1]
        == '\t')
        invariant
            a <= b <= cs@.len(),
            sp_trim_end(cs@, a as int, cs@.len() as int) == sp_trim_end(cs@, a as int, b as int),
        decreases b,
    {
        b -= 1;
    }
    proof {
        assert(sp_trim_end(cs@, a as int, b as int) == b as int);
    }
    let mut out = String::new();
    let mut k = a;
    proof {
        assert(out@ =~= cs@.subrange(a as int, a as int));
    }
    while k < b
        invariant
            a <= k <= b <= cs@.len(),
            out@ == cs@.subrange(a as int, k as int),
        decreases b - k,
    {
        push_char(&mut out, cs[k]);
        proof {
            assert(out@ =~= cs@.subrange(a as int, k as int + 1));
        }
        k += 1;
    }
    out
}

/// The UTF-8 byte length of the text.
pub open spec fn sp_byte_len(s: Seq<char>) -> int
    decreases s.len(),
{
    if s.len() == 0 {
        0
    } else {
        spec_utf8_len(s.first()) + sp_byte_len(s.drop_first())
    }
}

fn byte_len(s: &String) -> (r: u128)
    ensures
        r as int == sp_byte_len(s@),
{
    let cs = string_chars(s);
    let mut total: u128 = 0;
    let mut i: usize = 0;
    let ghost sv = s@;
    proof {
        assert(sv.skip(0) =~= sv);
    }
    while i < cs.len()
        invariant
            i <= cs@.len(),
            cs@ == sv,
            total <= 4 * i,
            total as int + sp_byte_len(sv.skip(i as int)) == sp_byte_len(sv),
        decreases cs@.len() - i,
    {
        proof {
            assert(sv.skip(i as int).first() == sv[i as int]);
            assert(sv.skip(i as int).drop_first() =~= sv.skip(i as int + 1));
        }
        let l = utf8_len(cs[i]);
        total = total + l as u128;
        i += 1;
    }
    proof {
        assert(sv.skip(i as int).len() == 0);
    }
    total
}

/// The last dot-separated segment of a name.
pub open spec fn sp_last_seg(s: Seq<char>) -> Seq<char>
    decreases s.len(),
{
    if s.len() == 0 {
        s
    } else if s.last() == '.' {
        Seq::empty()
    } else {
        match sp_last_dot(s) {
            Some(p) => s.skip(p + 1),
            None => s,
        }
    }
}

/// Index of the last `.` in `s`.
pub open spec fn sp_last_dot(s: Seq<char>) -> Option<int>
    decreases s.len(),
{
    if s.len() == 0 {
        None
    } else if s.last() == '.' {
        Some(s.len() - 1)
    } else {
        sp_last_dot(s.drop_last())
    }
}

/// Whether the name or its last dot-segment is in the excluded set.
pub open spec fn sp_excluded(name: Seq<char>, excl: Seq<Seq<char>>) -> bool {
    sp_in_set(name, excl) || sp_in_set(sp_last_seg(name), excl)
}

pub open spec fn sp_in_set(name: Seq<char>, excl: Seq<Seq<char>>) -> bool {
    exists|i: int| 0 <= i < excl.len() && excl[i] == name
}

fn in_set(name: &String, excl: &Vec<String>) -> (r: bool)
    ensures
        r == sp_in_set(name@, strs_views(excl@)),
{
    let ghost ev = strs_views(excl@);
    let mut i: usize = 0;
    proof {
        lemma_strs_views_len(excl@);
    }
    while i < excl.len()
        invariant
            i <= excl@.len(),
            ev == strs_views(excl@),
            ev.len() == excl@.len(),
            forall|m: int| 0 <= m < i ==> ev[m] != name@,
        decreases excl@.len() - i,
    {
        proof {
            lemma_strs_views_index(excl@, i as int);
        }
        if excl[i] == *name {
            proof {
                assert(ev[i as int] == name@);
            }
            return true;
        }
        i += 1;
    }
    false
}

/// The name's last dot-segment.
fn last_seg(name: &String) -> (r: String)
    ensures
        r@ == sp_last_seg(name@),
{
    let cs = string_chars(name);
    if cs.len() == 0 {
        return String::new();
    }
    if cs[cs.len() - 1] == '.' {
        return String::new();
    }
    let mut i: usize = cs.len();
    while i > 0 && cs[i - 1] != '.'
        invariant
            i <= cs@.len(),
            cs@ == name@,
            forall|m: int| i <= m < cs@.len() ==> cs@[m] != '.',
        decreases i,
    {
        i -= 1;
    }
    proof {
        if i > 0 {
            lemma_last_dot_at(name@, i as int - 1);
        } else {
            lemma_last_dot_none(name@, name@.len() as int);
        }
    }
    let mut out = String::new();
    let mut k = i;
    proof {
        assert(out@ =~= name@.skip(i as int).take(0));
        assert(name@.skip(i as int) =~= name@.subrange(i as int, name@.len() as int));
    }
    while k < cs.len()
        invariant
            i <= k <= cs@.len(),
            cs@ == name@,
            out@ == name@.subrange(i as int, k as int),
        decreases cs@.len() - k,
    {
        push_char(&mut out, cs[k]);
        proof {
            assert(out@ =~= name@.subrange(i as int, k as int + 1));
        }
        k += 1;
    }
    proof {
        assert(name@.subrange(i as int, name@.len() as int) =~= name@.skip(i as int));
        if i == 0 {
            assert(name@.skip(0) =~= name@);
        }
    }
    out
}

proof fn lemma_last_dot_at(s: Seq<char>, p: int)
    requires
        0 <= p < s.len(),
        s[p] == '.',
        forall|m: int| p < m < s.len() ==> s[m] != '.',
    ensures
        sp_last_dot(s) == Some(p),
    decreases s.len(),
{
    if p == s.len() - 1 {
    } else {
        assert(s.last() != '.');
        lemma_last_dot_at(s.drop_last(), p);
    }
}

proof fn lemma_last_dot_none(s: Seq<char>, i: int)
    requires
        i == s.len(),
        forall|m: int| 0 <= m < i ==> s[m] != '.',
    ensures
        sp_last_dot(s) is None,
    decreases s.len(),
{
    if s.len() > 0 {
        assert(s.last() != '.');
        lemma_last_dot_none(s.drop_last(), i - 1);
    }
}

/// Whether this element name trips the excluded-component guard.
fn excluded_test(name: &String, excl: &Vec<String>) -> (r: bool)
    ensures
        r == sp_excluded(name@, strs_views(excl@)),
{
    if in_set(name, excl) {
        return true;
    }
    let seg = last_seg(name);
    in_set(&seg, excl)
}

/// The value of a literal candidate: a string literal or an
/// interpolation-free template, possibly wrapped.
pub open spec fn sp_eval_literal(e: Expr) -> Option<Seq<char>>
    decreases e,
{
    match e {
        Expr::StrLit { value } => Some(value@),
        Expr::Tpl { quasis, exprs } => {
            if exprs@.len() == 0 {
                Some(sp_quasis_cat(quasis@))
            } else {
                None
            }
        },
        Expr::Wrap { inner } => sp_eval_literal(*inner),
        _ => None,
    }
}

fn eval_literal(e: &Expr) -> (r: Option<String>)
    ensures
        match r {
            Some(v) => sp_eval_literal(*e) == Some(v@),
            None => sp_eval_literal(*e) is None,
        },
    decreases *e,
{
    match e {
        Expr::StrLit { value } => Some(value.clone()),
        Expr::Tpl { quasis, exprs } => {
            if exprs.len() == 0 {
                let mut out = String::new();
                let mut k: usize = 0;
                proof {
                    assert(quasis@.skip(0) =~= quasis@);
                }
                while k < quasis.len()
                    invariant
                        k <= quasis@.len(),
                        sp_quasis_cat(quasis@) == out@ + sp_quasis_cat(quasis@.skip(k as int)),
                    decreases quasis@.len() - k,
                {
                    proof {
                        assert(quasis@.skip(k as int).first() == quasis@[k as int]);
                        assert(quasis@.skip(k as int).drop_first() =~= quasis@.skip(k as int + 1));
                    }
                    out.append(quasis[k].as_str());
                    k += 1;
                }
                proof {
                    assert(quasis@.skip(k as int).len() == 0);
                    assert(out@ + sp_quasis_cat(quasis@.skip(k as int)) =~= out@);
                }
                Some(out)
            } else {
                None
            }
        },
        Expr::Wrap { inner } => eval_literal(inner),
        _ => None,
    }
}

/// Whether the record's line range intersects the filter.
pub open spec fn sp_intersects(start_line: u32, end_line: u32, range: Option<Range>) -> bool {
    match range {
        None => true,
        Some(r) => end_line >= r.start_line && start_line <= r.end_line,
    }
}


// ---------------------------------------------------------------------------
// Detection.
// ---------------------------------------------------------------------------

/// The environment a detection runs under.
pub struct HcEnv {
    pub min_len: int,
    pub excl: Seq<Seq<char>>,
    pub range: Option<Range>,
}

/// The record a JSX text child yields, unless a guard or the range filter
/// excludes it or the normalized text is too short.
pub open spec fn sp_check_text(
    value: Seq<char>,
    span: Span,
    in_t: bool,
    in_exc: bool,
    env: HcEnv,
) -> Option<SHardItem> {
    if !sp_intersects(span.start_line, span.end_line, env.range) {
        None
    } else if in_exc {
        None
    } else if in_t {
        None
    } else {
        let norm = sp_normalize(value);
        if sp_byte_len(norm) >= env.min_len {
            Some(
                SHardItem {
                    lnum: span.start_line,
                    col: span.start_col,
                    end_lnum: span.end_line,
                    end_col: span.end_col,
                    text: norm,
                    kind: "jsx_text"@,
                },
            )
        } else {
            None
        }
    }
}

/// The record an expression-container child yields: the container's range
/// gates it, the inner expression's range positions it, and the text is the
/// literal's value with its trimmed form measured against the minimum.
pub open spec fn sp_check_lit(
    e: Expr,
    span: Span,
    expr_span: Span,
    in_t: bool,
    in_exc: bool,
    env: HcEnv,
) -> Option<SHardItem> {
    if !sp_intersects(span.start_line, span.end_line, env.range) {
        None
    } else if in_exc {
        None
    } else if in_t {
        None
    } else {
        match sp_eval_literal(e) {
            Some(lit) => {
                if sp_byte_len(sp_trim(lit)) >= env.min_len {
                    Some(
                        SHardItem {
                            lnum: expr_span.start_line,
                            col: expr_span.start_col,
                            end_lnum: expr_span.end_line,
                            end_col: expr_span.end_col,
                            text: lit,
                            kind: "jsx_literal"@,
                        },
                    )
                } else {
                    None
                }
            },
            None => None,
        }
    }
}

pub open spec fn h_module(m: Module, env: HcEnv) -> Seq<SHardItem> {
    h_items(m.body@, env, Seq::empty())
}

pub open spec fn h_items(items: Seq<ModuleItem>, env: HcEnv, acc: Seq<SHardItem>) -> Seq<SHardItem>
    decreases items, 1int,
{
    if items.len() == 0 {
        acc
    } else {
        h_items(items.drop_first(), env, h_item(items.first(), env, acc))
    }
}

pub open spec fn h_item(item: ModuleItem, env: HcEnv, acc: Seq<SHardItem>) -> Seq<SHardItem>
    decreases item, 2int,
{
    match item {
        ModuleItem::Stmt(s) => h_stmt(s, env, acc),
        ModuleItem::ExportDecl(d) => h_decl(d, env, acc),
        ModuleItem::ExportDefaultExpr(e) => h_expr(*e, false, false, env, acc),
        ModuleItem::ExportDefaultFunc { body } => match body {
            Some(b) => h_stmts(b.stmts@, env, acc),
            None => acc,
        },
        ModuleItem::Other => acc,
    }
}

pub open spec fn h_stmts(ss: Seq<Stmt>, env: HcEnv, acc: Seq<SHardItem>) -> Seq<SHardItem>
    decreases ss, 1int,
{
    if ss.len() == 0 {
        acc
    } else {
        h_stmts(ss.drop_first(), env, h_stmt(ss.first(), env, acc))
    }
}

pub open spec fn h_stmt(s: Stmt, env: HcEnv, acc: Seq<SHardItem>) -> Seq<SHardItem>
    decreases s, 2int,
{
    match s {
        Stmt::Expr { expr } => h_expr(*expr, false, false, env, acc),
        Stmt::Decl(d) => h_decl(d, env, acc),
        Stmt::Return { arg } => match arg {
            Some(e) => h_expr(*e, false, false, env, acc),
            None => acc,
        },
        Stmt::Block { stmts } => h_stmts(stmts@, env, acc),
        Stmt::If { test, cons, alt } => {
            let a1 = h_expr(*test, false, false, env, acc);
            let a2 = h_stmt(*cons, env, a1);
            match alt {
                Some(a) => h_stmt(*a, env, a2),
                None => a2,
            }
        },
        _ => acc,
    }
}

pub open spec fn h_decl(d: Decl, env: HcEnv, acc: Seq<SHardItem>) -> Seq<SHardItem>
    decreases d, 3int,
{
    match d {
        Decl::Var(vd) => h_declarators(vd.decls@, env, acc),
        Decl::Func { body } => match body {
            Some(b) => h_stmts(b.stmts@, env, acc),
            None => acc,
        },
        Decl::Other => acc,
    }
}

pub open spec fn h_declarators(ds: Seq<VarDeclarator>, env: HcEnv, acc: Seq<SHardItem>) -> Seq<
    SHardItem,
>
    decreases ds, 1int,
{
    if ds.len() == 0 {
        acc
    } else {
        let a1 = match ds.first().init {
            Some(e) => h_expr(*e, false, false, env, acc),
            None => acc,
        };
        h_declarators(ds.drop_first(), env, a1)
    }
}

/// A statement boundary resets the ancestor guards: a guard can only be
/// tripped by enclosing expressions of the same statement.
pub open spec fn h_expr(e: Expr, in_t: bool, in_exc: bool, env: HcEnv, acc: Seq<SHardItem>) -> Seq<
    SHardItem,
>
    decreases e, 0int,
{
    match e {
        Expr::Jsx(el) => h_elem(*el, in_t, in_exc, env, acc),
        Expr::JsxFrag { children } => h_children(children@, in_t, in_exc, env, acc),
        Expr::Call { callee, args, line } => {
            let cname: Option<Seq<char>> = match callee {
                Some(c) => match *c {
                    Expr::Ident { name, line: l } => Some(name@),
                    Expr::Member { obj, prop, computed } => match prop {
                        Some(p) => Some(p@),
                        None => None,
                    },
                    _ => None,
                },
                None => None,
            };
            let in_t2 = match cname {
                Some(n) => in_t || n == "t"@,
                None => in_t,
            };
            let a1 = h_args(args@, in_t2, in_exc, env, acc);
            match callee {
                Some(c) => h_expr(*c, in_t, in_exc, env, a1),
                None => a1,
            }
        },
        Expr::Arrow { body } => match body {
            ArrowBody::Block(b) => h_stmts(b.stmts@, env, acc),
            ArrowBody::Expr { expr, start_line, end_line } => h_expr(*expr, in_t, in_exc, env, acc),
        },
        Expr::Func { body } => match body {
            Some(b) => h_stmts(b.stmts@, env, acc),
            None => acc,
        },
        Expr::Wrap { inner } => h_expr(*inner, in_t, in_exc, env, acc),
        Expr::Cond { test, cons, alt } => h_expr(
            *alt,
            in_t,
            in_exc,
            env,
            h_expr(*cons, in_t, in_exc, env, h_expr(*test, in_t, in_exc, env, acc)),
        ),
        Expr::Array { elems } => h_exprs(elems@, in_t, in_exc, env, acc),
        Expr::Object { parts } => h_parts(parts@, in_t, in_exc, env, acc),
        _ => acc,
    }
}

pub open spec fn h_exprs(
    es: Seq<Expr>,
    in_t: bool,
    in_exc: bool,
    env: HcEnv,
    acc: Seq<SHardItem>,
) -> Seq<SHardItem>
    decreases es, 1int,
{
    if es.len() == 0 {
        acc
    } else {
        h_exprs(es.drop_first(), in_t, in_exc, env, h_expr(es.first(), in_t, in_exc, env, acc))
    }
}

pub open spec fn h_args(
    args: Seq<Arg>,
    in_t: bool,
    in_exc: bool,
    env: HcEnv,
    acc: Seq<SHardItem>,
) -> Seq<SHardItem>
    decreases args, 1int,
{
    if args.len() == 0 {
        acc
    } else {
        h_args(
            args.drop_first(),
            in_t,
            in_exc,
            env,
            h_expr(args.first().expr, in_t, in_exc, env, acc),
        )
    }
}

/// Only key/value property values are entered.
pub open spec fn h_parts(
    ps: Seq<ObjectPart>,
    in_t: bool,
    in_exc: bool,
    env: HcEnv,
    acc: Seq<SHardItem>,
) -> Seq<SHardItem>
    decreases ps, 1int,
{
    if ps.len() == 0 {
        acc
    } else {
        let a1 = match ps.first() {
            ObjectPart::Value(e) => h_expr(e, in_t, in_exc, env, acc),
            _ => acc,
        };
        h_parts(ps.drop_first(), in_t, in_exc, env, a1)
    }
}

pub open spec fn h_elem(
    el: JsxElem,
    in_t: bool,
    in_exc: bool,
    env: HcEnv,
    acc: Seq<SHardItem>,
) -> Seq<SHardItem>
    decreases el, 1int,
{
    let exc2 = in_exc || sp_excluded(el.name@, env.excl);
    h_children(el.children@, in_t, exc2, env, h_exprs(el.attrs@, in_t, exc2, env, acc))
}

pub open spec fn h_children(
    cs: Seq<JsxChild>,
    in_t: bool,
    in_exc: bool,
    env: HcEnv,
    acc: Seq<SHardItem>,
) -> Seq<SHardItem>
    decreases cs, 1int,
{
    if cs.len() == 0 {
        acc
    } else {
        h_children(cs.drop_first(), in_t, in_exc, env, h_child(cs.first(), in_t, in_exc, env, acc))
    }
}

pub open spec fn h_child(
    c: JsxChild,
    in_t: bool,
    in_exc: bool,
    env: HcEnv,
    acc: Seq<SHardItem>,
) -> Seq<SHardItem>
    decreases c, 2int,
{
    match c {
        JsxChild::Text { value, span } => match sp_check_text(value@, span, in_t, in_exc, env) {
            Some(it) => acc.push(it),
            None => acc,
        },
        JsxChild::Container { expr, span, expr_span } => match expr {
            Some(e) => {
                let a1 = match sp_check_lit(*e, span, expr_span, in_t, in_exc, env) {
                    Some(it) => acc.push(it),
                    None => acc,
                };
                h_expr(*e, in_t, in_exc, env, a1)
            },
            None => acc,
        },
        JsxChild::Elem(el) => h_elem(*el, in_t, in_exc, env, acc),
        JsxChild::Frag { children } => h_children(children@, in_t, in_exc, env, acc),
        _ => acc,
    }
}

// ---------------------------------------------------------------------------
// Ordering.
// ---------------------------------------------------------------------------

/// Position order: by line, then column.
pub open spec fn hi_le(a: SHardItem, b: SHardItem) -> bool {
    a.lnum < b.lnum || (a.lnum == b.lnum && a.col <= b.col)
}

/// `x` inserted after every element it does not strictly precede, so that
/// equal positions keep their order.
pub open spec fn sp_sorted_insert(s: Seq<SHardItem>, x: SHardItem) -> Seq<SHardItem>
    decreases s.len(),
{
    if s.len() == 0 {
        seq![x]
    } else if hi_le(s.last(), x) {
        s.push(x)
    } else {
        sp_sorted_insert(s.drop_last(), x).push(s.last())
    }
}

/// The records sorted ascending by position, stably.
pub open spec fn sp_sort_items(s: Seq<SHardItem>) -> Seq<SHardItem>
    decreases s.len(),
{
    if s.len() == 0 {
        Seq::empty()
    } else {
        sp_sorted_insert(sp_sort_items(s.drop_last()), s.last())
    }
}

fn hi_le_exec(a: &HardcodedItem, b: &HardcodedItem) -> (r: bool)
    ensures
        r == hi_le(hi_view(*a), hi_view(*b)),
{
    a.lnum < b.lnum || (a.lnum == b.lnum && a.col <= b.col)
}

fn sorted_insert(v: Vec<HardcodedItem>, x: HardcodedItem) -> (r: Vec<HardcodedItem>)
    ensures
        hi_views(r@) == sp_sorted_insert(hi_views(v@), hi_view(x)),
    decreases v@.len(),
{
    let ghost v0 = v@;
    let mut v = v;
    proof {
        lemma_hi_views_len(v0);
    }
    if v.len() == 0 {
        v.push(x);
        proof {
            assert(v@.drop_last() =~= v0);
            assert(hi_views(v@) == hi_views(v0).push(hi_view(x)));
            assert(hi_views(v@) =~= seq![hi_view(x)]);
        }
        v
    } else {
        let keep = hi_le_exec(&v[v.len() - 1], &x);
        proof {
            lemma_hi_views_index(v0, v0.len() - 1);
            assert(v0.last() == v0[v0.len() - 1]);
            assert(hi_views(v0).last() == hi_view(v0.last()));
        }
        if keep {
            v.push(x);
            proof {
                assert(v@.drop_last() =~= v0);
                assert(hi_views(v@) == hi_views(v0).push(hi_view(x)));
            }
            v
        } else {
            let last = v.pop().unwrap();
            proof {
                assert(v@ =~= v0.drop_last());
                assert(hi_views(v0).drop_last() =~= hi_views(v0.drop_last()));
            }
            let mut r = sorted_insert(v, x);
            let ghost rv = r@;
            r.push(last);
            proof {
                assert(r@.drop_last() =~= rv);
                assert(hi_views(r@) == hi_views(rv).push(hi_view(last)));
            }
            r
        }
    }
}

fn sort_items(v: Vec<HardcodedItem>) -> (r: Vec<HardcodedItem>)
    ensures
        hi_views(r@) == sp_sort_items(hi_views(v@)),
{
    let mut out: Vec<HardcodedItem> = Vec::new();
    let mut i: usize = 0;
    let ghost vv = hi_views(v@);
    proof {
        lemma_hi_views_len(v@);
        assert(hi_views(Seq::<HardcodedItem>::empty()) =~= Seq::<SHardItem>::empty());
        assert(vv.take(0) =~= Seq::<SHardItem>::empty());
    }
    while i < v.len()
        invariant
            i <= v@.len(),
            vv == hi_views(v@),
            vv.len() == v@.len(),
            hi_views(out@) == sp_sort_items(vv.take(i as int)),
        decreases v@.len() - i,
    {
        proof {
            lemma_hi_views_index(v@, i as int);
            assert(vv.take(i as int + 1).drop_last() =~= vv.take(i as int));
            assert(vv.take(i as int + 1).last() == vv[i as int]);
        }
        let it = &v[i];
        let x = HardcodedItem {
            lnum: it.lnum,
            col: it.col,
            end_lnum: it.end_lnum,
            end_col: it.end_col,
            text: it.text.clone(),
            kind: it.kind.clone(),
        };
        proof {
            assert(hi_view(x) == vv[i as int]);
        }
        out = sorted_insert(out, x);
        i += 1;
    }
    proof {
        assert(vv.take(v@.len() as int) =~= vv);
    }
    out
}


// ---------------------------------------------------------------------------
// Exec detection.
// ---------------------------------------------------------------------------

struct HEnv<'a> {
    min_length: usize,
    exclude: &'a Vec<String>,
    range: &'a Option<Range>,
}

impl<'a> HEnv<'a> {
    spec fn view(&self) -> HcEnv {
        HcEnv {
            min_len: self.min_length as int,
            excl: strs_views(self.exclude@),
            range: *self.range,
        }
    }
}

fn push_hit(out: &mut Vec<HardcodedItem>, it: HardcodedItem)
    ensures
        final(out)@ == old(out)@.push(it),
        hi_views(final(out)@) == hi_views(old(out)@).push(hi_view(it)),
{
    let ghost old_out = out@;
    out.push(it);
    proof {
        assert(out@.drop_last() =~= old_out);
        assert(hi_views(out@) == hi_views(old_out).push(hi_view(out@.last())));
    }
}

fn w_check_text(value: &String, span: Span, in_t: bool, in_exc: bool, env: &HEnv) -> (r: Option<
    HardcodedItem,
>)
    ensures
        match r {
            Some(it) => sp_check_text(value@, span, in_t, in_exc, env.view()) == Some(hi_view(it)),
            None => sp_check_text(value@, span, in_t, in_exc, env.view()) is None,
        },
{
    let in_range = match env.range {
        None => true,
        Some(rg) => span.end_line >= rg.start_line && span.start_line <= rg.end_line,
    };
    if !in_range || in_exc || in_t {
        return None;
    }
    let norm = normalize_ws(value);
    if byte_len(&norm) >= env.min_length as u128 {
        Some(
            HardcodedItem {
                lnum: span.start_line,
                col: span.start_col,
                end_lnum: span.end_line,
                end_col: span.end_col,
                text: norm,
                kind: String::from_str("jsx_text"),
            },
        )
    } else {
        None
    }
}

fn w_check_lit(
    e: &Expr,
    span: Span,
    expr_span: Span,
    in_t: bool,
    in_exc: bool,
    env: &HEnv,
) -> (r: Option<HardcodedItem>)
    ensures
        match r {
            Some(it) => sp_check_lit(*e, span, expr_span, in_t, in_exc, env.view()) == Some(
                hi_view(it),
            ),
            None => sp_check_lit(*e, span, expr_span, in_t, in_exc, env.view()) is None,
        },
{
    let in_range = match env.range {
        None => true,
        Some(rg) => span.end_line >= rg.start_line && span.start_line <= rg.end_line,
    };
    if !in_range || in_exc || in_t {
        return None;
    }
    match eval_literal(e) {
        Some(lit) => {
            let cs = string_chars(&lit);
            let trimmed = trim_chars(&cs);
            if byte_len(&trimmed) >= env.min_length as u128 {
                Some(
                    HardcodedItem {
                        lnum: expr_span.start_line,
                        col: expr_span.start_col,
                        end_lnum: expr_span.end_line,
                        end_col: expr_span.end_col,
                        text: lit,
                        kind: String::from_str("jsx_literal"),
                    },
                )
            } else {
                None
            }
        },
        None => None,
    }
}

fn w_items(items: &Vec<ModuleItem>, env: &HEnv, acc: Vec<HardcodedItem>) -> (r: Vec<HardcodedItem>)
    ensures
        hi_views(r@) == h_items(items@, env.view(), hi_views(acc@)),
    decreases *items, 1int,
{
    let mut acc = acc;
    let ghost acc0 = hi_views(acc@);
    let mut i: usize = 0;
    proof {
        assert(items@.skip(0) =~= items@);
    }
    while i < items.len()
        invariant
            i <= items@.len(),
            h_items(items@, env.view(), acc0) == h_items(
                items@.skip(i as int),
                env.view(),
                hi_views(acc@),
            ),
        decreases items@.len() - i,
    {
        proof {
            assert(items@.skip(i as int).first() == items@[i as int]);
            assert(items@.skip(i as int).drop_first() =~= items@.skip(i as int + 1));
            assert(decreases_to!(*items => items@[i as int]));
        }
        acc = w_item(&items[i], env, acc);
        i += 1;
    }
    proof {
        assert(items@.skip(i as int).len() == 0);
    }
    acc
}

fn w_item(item: &ModuleItem, env: &HEnv, acc: Vec<HardcodedItem>) -> (r: Vec<HardcodedItem>)
    ensures
        hi_views(r@) == h_item(*item, env.view(), hi_views(acc@)),
    decreases *item, 2int,
{
    match item {
        ModuleItem::Stmt(s) => w_stmt(s, env, acc),
        ModuleItem::ExportDecl(d) => w_decl(d, env, acc),
        ModuleItem::ExportDefaultExpr(e) => w_expr(e, false, false, env, acc),
        ModuleItem::ExportDefaultFunc { body } => match body {
            Some(b) => w_stmts(&b.stmts, env, acc),
            None => acc,
        },
        ModuleItem::Other => acc,
    }
}

fn w_stmts(ss: &Vec<Stmt>, env: &HEnv, acc: Vec<HardcodedItem>) -> (r: Vec<HardcodedItem>)
    ensures
        hi_views(r@) == h_stmts(ss@, env.view(), hi_views(acc@)),
    decreases *ss, 1int,
{
    let mut acc = acc;
    let ghost acc0 = hi_views(acc@);
    let mut i: usize = 0;
    proof {
        assert(ss@.skip(0) =~= ss@);
    }
    while i < ss.len()
        invariant
            i <= ss@.len(),
            h_stmts(ss@, env.view(), acc0) == h_stmts(
                ss@.skip(i as int),
                env.view(),
                hi_views(acc@),
            ),
        decreases ss@.len() - i,
    {
        proof {
            assert(ss@.skip(i as int).first() == ss@[i as int]);
            assert(ss@.skip(i as int).drop_first() =~= ss@.skip(i as int + 1));
            assert(decreases_to!(*ss => ss@[i as int]));
        }
        acc = w_stmt(&ss[i], env, acc);
        i += 1;
    }
    proof {
        assert(ss@.skip(i as int).len() == 0);
    }
    acc
}

fn w_stmt(s: &Stmt, env: &HEnv, acc: Vec<HardcodedItem>) -> (r: Vec<HardcodedItem>)
    ensures
        hi_views(r@) == h_stmt(*s, env.view(), hi_views(acc@)),
    decreases *s, 2int,
{
    match s {
        Stmt::Expr { expr } => w_expr(expr, false, false, env, acc),
        Stmt::Decl(d) => w_decl(d, env, acc),
        Stmt::Return { arg } => match arg {
            Some(e) => w_expr(e, false, false, env, acc),
            None => acc,
        },
        Stmt::Block { stmts } => w_stmts(stmts, env, acc),
        Stmt::If { test, cons, alt } => {
            let a1 = w_expr(test, false, false, env, acc);
            let a2 = w_stmt(cons, env, a1);
            match alt {
                Some(a) => w_stmt(a, env, a2),
                None => a2,
            }
        },
        _ => acc,
    }
}

fn w_decl(d: &Decl, env: &HEnv, acc: Vec<HardcodedItem>) -> (r: Vec<HardcodedItem>)
    ensures
        hi_views(r@) == h_decl(*d, env.view(), hi_views(acc@)),
    decreases *d, 3int,
{
    match d {
        Decl::Var(vd) => {
            let mut acc = acc;
            let ghost acc0 = hi_views(acc@);
            let ds = &vd.decls;
            let mut i: usize = 0;
            proof {
                assert(ds@.skip(0) =~= ds@);
            }
            while i < ds.len()
                invariant
                    i <= ds@.len(),
                    decreases_to!(*d => *ds),
                    h_declarators(ds@, env.view(), acc0) == h_declarators(
                        ds@.skip(i as int),
                        env.view(),
                        hi_views(acc@),
                    ),
                decreases ds@.len() - i,
            {
                proof {
                    assert(ds@.skip(i as int).first() == ds@[i as int]);
                    assert(ds@.skip(i as int).drop_first() =~= ds@.skip(i as int + 1));
                    assert(decreases_to!(*ds => ds@[i as int]));
                }
                match &ds[i].init {
                    Some(e) => {
                        proof {
                            assert(decreases_to!(*ds => ds@[i as int].init));
                        }
                        acc = w_expr(e, false, false, env, acc);
                    },
                    None => {},
                }
                i += 1;
            }
            proof {
                assert(ds@.skip(i as int).len() == 0);
            }
            acc
        },
        Decl::Func { body } => match body {
            Some(b) => w_stmts(&b.stmts, env, acc),
            None => acc,
        },
        Decl::Other => acc,
    }
}

#[verifier::rlimit(60)]
fn w_expr(e: &Expr, in_t: bool, in_exc: bool, env: &HEnv, acc: Vec<HardcodedItem>) -> (r: Vec<
    HardcodedItem,
>)
    ensures
        hi_views(r@) == h_expr(*e, in_t, in_exc, env.view(), hi_views(acc@)),
    decreases *e, 0int,
{
    match e {
        Expr::Jsx(el) => w_elem(el, in_t, in_exc, env, acc),
        Expr::JsxFrag { children } => w_children(children, in_t, in_exc, env, acc),
        Expr::Call { callee, args, line } => {
            let cname: Option<&String> = match callee {
                Some(c) => match &**c {
                    Expr::Ident { name, line: _l } => Some(name),
                    Expr::Member { obj: _o, prop, computed: _c2 } => match prop {
                        Some(p) => Some(p),
                        None => None,
                    },
                    _ => None,
                },
                None => None,
            };
            let in_t2 = match cname {
                Some(n) => in_t || str_eq_lit_h(n, "t"),
                None => in_t,
            };
            let a1 = w_args(args, in_t2, in_exc, env, acc);
            match callee {
                Some(c) => w_expr(c, in_t, in_exc, env, a1),
                None => a1,
            }
        },
        Expr::Arrow { body } => match body {
            ArrowBody::Block(b) => w_stmts(&b.stmts, env, acc),
            ArrowBody::Expr { expr, start_line, end_line } => w_expr(expr, in_t, in_exc, env, acc),
        },
        Expr::Func { body } => match body {
            Some(b) => w_stmts(&b.stmts, env, acc),
            None => acc,
        },
        Expr::Wrap { inner } => w_expr(inner, in_t, in_exc, env, acc),
        Expr::Cond { test, cons, alt } => {
            let a1 = w_expr(test, in_t, in_exc, env, acc);
            let a2 = w_expr(cons, in_t, in_exc, env, a1);
            w_expr(alt, in_t, in_exc, env, a2)
        },
        Expr::Array { elems } => w_exprs(elems, in_t, in_exc, env, acc),
        Expr::Object { parts } => w_parts(parts, in_t, in_exc, env, acc),
        _ => acc,
    }
}

/// Whether `s` is the string `lit`.
fn str_eq_lit_h(s: &String, lit: &str) -> (r: bool)
    ensures
        r == (s@ == lit@),
{
    let l = String::from_str(lit);
    *s == l
}

fn w_exprs(es: &Vec<Expr>, in_t: bool, in_exc: bool, env: &HEnv, acc: Vec<HardcodedItem>) -> (r:
    Vec<HardcodedItem>)
    ensures
        hi_views(r@) == h_exprs(es@, in_t, in_exc, env.view(), hi_views(acc@)),
    decreases *es, 1int,
{
    let mut acc = acc;
    let ghost acc0 = hi_views(acc@);
    let mut i: usize = 0;
    proof {
        assert(es@.skip(0) =~= es@);
    }
    while i < es.len()
        invariant
            i <= es@.len(),
            h_exprs(es@, in_t, in_exc, env.view(), acc0) == h_exprs(
                es@.skip(i as int),
                in_t,
                in_exc,
                env.view(),
                hi_views(acc@),
            ),
        decreases es@.len() - i,
    {
        proof {
            assert(es@.skip(i as int).first() == es@[i as int]);
            assert(es@.skip(i as int).drop_first() =~= es@.skip(i as int + 1));
            assert(decreases_to!(*es => es@[i as int]));
        }
        acc = w_expr(&es[i], in_t, in_exc, env, acc);
        i += 1;
    }
    proof {
        assert(es@.skip(i as int).len() == 0);
    }
    acc
}

fn w_args(args: &Vec<Arg>, in_t: bool, in_exc: bool, env: &HEnv, acc: Vec<HardcodedItem>) -> (r:
    Vec<HardcodedItem>)
    ensures
        hi_views(r@) == h_args(args@, in_t, in_exc, env.view(), hi_views(acc@)),
    decreases *args, 1int,
{
    let mut acc = acc;
    let ghost acc0 = hi_views(acc@);
    let mut i: usize = 0;
    proof {
        assert(args@.skip(0) =~= args@);
    }
    while i < args.len()
        invariant
            i <= args@.len(),
            h_args(args@, in_t, in_exc, env.view(), acc0) == h_args(
                args@.skip(i as int),
                in_t,
                in_exc,
                env.view(),
                hi_views(acc@),
            ),
        decreases args@.len() - i,
    {
        proof {
            assert(args@.skip(i as int).first() == args@[i as int]);
            assert(args@.skip(i as int).drop_first() =~= args@.skip(i as int + 1));
            assert(decreases_to!(*args => args@[i as int]));
            assert(decreases_to!(*args => args@[i as int].expr));
        }
        acc = w_expr(&args[i].expr, in_t, in_exc, env, acc);
        i += 1;
    }
    proof {
        assert(args@.skip(i as int).len() == 0);
    }
    acc
}

fn w_parts(ps: &Vec<ObjectPart>, in_t: bool, in_exc: bool, env: &HEnv, acc: Vec<HardcodedItem>)
    -> (r: Vec<HardcodedItem>)
    ensures
        hi_views(r@) == h_parts(ps@, in_t, in_exc, env.view(), hi_views(acc@)),
    decreases *ps, 1int,
{
    let mut acc = acc;
    let ghost acc0 = hi_views(acc@);
    let mut i: usize = 0;
    proof {
        assert(ps@.skip(0) =~= ps@);
    }
    while i < ps.len()
        invariant
            i <= ps@.len(),
            h_parts(ps@, in_t, in_exc, env.view(), acc0) == h_parts(
                ps@.skip(i as int),
                in_t,
                in_exc,
                env.view(),
                hi_views(acc@),
            ),
        decreases ps@.len() - i,
    {
        proof {
            assert(ps@.skip(i as int).first() == ps@[i as int]);
            assert(ps@.skip(i as int).drop_first() =~= ps@.skip(i as int + 1));
            assert(decreases_to!(*ps => ps@[i as int]));
        }
        match &ps[i] {
            ObjectPart::Value(e) => {
                acc = w_expr(e, in_t, in_exc, env, acc);
            },
            _ => {},
        }
        i += 1;
    }
    proof {
        assert(ps@.skip(i as int).len() == 0);
    }
    acc
}

fn w_elem(el: &JsxElem, in_t: bool, in_exc: bool, env: &HEnv, acc: Vec<HardcodedItem>) -> (r: Vec<
    HardcodedItem,
>)
    ensures
        hi_views(r@) == h_elem(*el, in_t, in_exc, env.view(), hi_views(acc@)),
    decreases *el, 1int,
{
    let exc2 = in_exc || excluded_test(&el.name, env.exclude);
    let a1 = w_exprs(&el.attrs, in_t, exc2, env, acc);
    w_children(&el.children, in_t, exc2, env, a1)
}

fn w_children(
    cs: &Vec<JsxChild>,
    in_t: bool,
    in_exc: bool,
    env: &HEnv,
    acc: Vec<HardcodedItem>,
) -> (r: Vec<HardcodedItem>)
    ensures
        hi_views(r@) == h_children(cs@, in_t, in_exc, env.view(), hi_views(acc@)),
    decreases *cs, 1int,
{
    let mut acc = acc;
    let ghost acc0 = hi_views(acc@);
    let mut i: usize = 0;
    proof {
        assert(cs@.skip(0) =~= cs@);
    }
    while i < cs.len()
        invariant
            i <= cs@.len(),
            h_children(cs@, in_t, in_exc, env.view(), acc0) == h_children(
                cs@.skip(i as int),
                in_t,
                in_exc,
                env.view(),
                hi_views(acc@),
            ),
        decreases cs@.len() - i,
    {
        proof {
            assert(cs@.skip(i as int).first() == cs@[i as int]);
            assert(cs@.skip(i as int).drop_first() =~= cs@.skip(i as int + 1));
            assert(decreases_to!(*cs => cs@[i as int]));
        }
        acc = w_child(&cs[i], in_t, in_exc, env, acc);
        i += 1;
    }
    proof {
        assert(cs@.skip(i as int).len() == 0);
    }
    acc
}

fn w_child(c: &JsxChild, in_t: bool, in_exc: bool, env: &HEnv, acc: Vec<HardcodedItem>) -> (r: Vec<
    HardcodedItem,
>)
    ensures
        hi_views(r@) == h_child(*c, in_t, in_exc, env.view(), hi_views(acc@)),
    decreases *c, 2int,
{
    let mut acc = acc;
    match c {
        JsxChild::Text { value, span } => {
            match w_check_text(value, *span, in_t, in_exc, env) {
                Some(it) => {
                    push_hit(&mut acc, it);
                },
                None => {},
            }
            acc
        },
        JsxChild::Container { expr, span, expr_span } => match expr {
            Some(e) => {
                match w_check_lit(e, *span, *expr_span, in_t, in_exc, env) {
                    Some(it) => {
                        push_hit(&mut acc, it);
                    },
                    None => {},
                }
                w_expr(e, in_t, in_exc, env, acc)
            },
            None => acc,
        },
        JsxChild::Elem(el) => w_elem(el, in_t, in_exc, env, acc),
        JsxChild::Frag { children } => w_children(children, in_t, in_exc, env, acc),
        _ => acc,
    }
}

// ---------------------------------------------------------------------------
// The public analysis.
// ---------------------------------------------------------------------------

/// What a hardcoded-text request carries: the source and dialect tag, an
/// optional line-range filter, the minimum text length, and the JSX
/// component names whose contents are excluded.
pub struct ExtractParams {
    pub source: String,
    pub lang: String,
    pub range: Option<Range>,
    pub min_length: usize,
    pub exclude_components: Vec<String>,
}

/// Everything `extract` promises: parse failure surfaces as exactly the
/// parser's message; otherwise the result is the position-sorted record
/// list of the detector's traversal of the module the parser's serialized
/// tree denotes.
pub open spec fn hc_post(
    source: Seq<char>,
    lang: Seq<char>,
    range: Option<Range>,
    min_len: int,
    excl: Seq<Seq<char>>,
    r: Result<Seq<SHardItem>, Seq<char>>,
) -> bool {
    let flags = spec_dialect_flags(lang);
    if source.len() >= 0x4000_0000 {
        r == Err::<Seq<SHardItem>, Seq<char>>(crate::scan::spec_size_msg())
    } else {
        match parse_result_of(source, flags.0, flags.1) {
            Err(e) => r == Err::<Seq<SHardItem>, Seq<char>>(e),
            Ok((json, base)) => match sp_json(json) {
                None => r == Err::<Seq<SHardItem>, Seq<char>>(crate::scan::spec_tree_msg()),
                Some(j) => exists|m: Module|
                    #![trigger rel_module(j, source, base, m)]
                    rel_module(j, source, base, m) && r == Ok::<Seq<SHardItem>, Seq<char>>(
                        sp_sort_items(
                            h_module(m, HcEnv { min_len: min_len, excl: excl, range: range }),
                        ),
                    ),
            },
        }
    }
}

proof fn lemma_hc_post_ok(
    source: Seq<char>,
    lang: Seq<char>,
    range: Option<Range>,
    min_len: int,
    excl: Seq<Seq<char>>,
    json: Seq<char>,
    base: u32,
    j: crate::json::SJson,
    m: Module,
    items: Seq<SHardItem>,
)
    requires
        source.len() < 0x4000_0000,
        parse_result_of(source, spec_dialect_flags(lang).0, spec_dialect_flags(lang).1) == Ok::<
            (Seq<char>, u32),
            Seq<char>,
        >((json, base)),
        sp_json(json) == Some(j),
        rel_module(j, source, base, m),
        items == sp_sort_items(h_module(m, HcEnv { min_len: min_len, excl: excl, range: range })),
    ensures
        hc_post(source, lang, range, min_len, excl, Ok(items)),
{
    let r = Ok::<Seq<SHardItem>, Seq<char>>(items);
    assert(exists|m2: Module|
        #![trigger rel_module(j, source, base, m2)]
        rel_module(j, source, base, m2) && r == Ok::<Seq<SHardItem>, Seq<char>>(
            sp_sort_items(h_module(m2, HcEnv { min_len: min_len, excl: excl, range: range })),
        )) by {
        assert(rel_module(j, source, base, m) && r == Ok::<Seq<SHardItem>, Seq<char>>(
            sp_sort_items(h_module(m, HcEnv { min_len: min_len, excl: excl, range: range })),
        ));
    }
    let flags = spec_dialect_flags(lang);
    let pr = parse_result_of(source, flags.0, flags.1);
    assert(pr is Ok);
    assert(pr->Ok_0.0 == json);
    assert(pr->Ok_0.1 == base);
    assert(sp_json(pr->Ok_0.0) == Some(j));
}

/// Finds the hardcoded user-facing text of the source, sorted by position.
pub fn extract(params: ExtractParams) -> (r: Result<Vec<HardcodedItem>, ParseError>)
    ensures
        r is Ok ==> hc_post(
            params.source@,
            params.lang@,
            params.range,
            params.min_length as int,
            strs_views(params.exclude_components@),
            Ok(hi_views(r->Ok_0@)),
        ),
        r is Err ==> hc_post(
            params.source@,
            params.lang@,
            params.range,
            params.min_length as int,
            strs_views(params.exclude_components@),
            Err(r->Err_0.message@),
        ),
{
    let chars = string_chars(&params.source);
    if chars.len() >= 0x4000_0000 {
        return Err(ParseError { message: String::from_str("source too large to analyze") });
    }
    let (ts, jsx) = dialect_flags(&params.lang);
    match parse_source_json(params.source.as_str(), ts, jsx) {
        Err(e) => Err(ParseError { message: e }),
        Ok((json, base)) => {
            let jchars = string_chars(&json);
            match parse_json(jchars.as_slice()) {
                None => Err(
                    ParseError {
                        message: String::from_str("serialized syntax tree was not readable"),
                    },
                ),
                Some(jv) => {
                    let li = LineIndex { chars, base };
                    let m = dec_module(&jv, &li);
                    let env = HEnv {
                        min_length: params.min_length,
                        exclude: &params.exclude_components,
                        range: &params.range,
                    };
                    proof {
                        assert(hi_views(Seq::<HardcodedItem>::empty())
                            =~= Seq::<SHardItem>::empty());
                    }
                    let found = w_items(&m.body, &env, Vec::new());
                    let items = sort_items(found);
                    proof {
                        assert(spec_dialect_flags(params.lang@).0 == ts);
                        assert(spec_dialect_flags(params.lang@).1 == jsx);
                        lemma_hc_post_ok(
                            params.source@,
                            params.lang@,
                            params.range,
                            params.min_length as int,
                            strs_views(params.exclude_components@),
                            json@,
                            base,
                            jv@,
                            m,
                            hi_views(items@),
                        );
                    }
                    Ok(items)
                },
            }
        },
    }
}

} // verus!
