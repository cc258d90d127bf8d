//! Decoding of the external parser's serialized syntax tree into the
//! engine's own tree.
//!
//! `rel_*` are the specifications: each states exactly which tree a given
//! serialized node denotes, over the source text held by a [`LineIndex`].
//! The decoding functions establish them.  Unknown node kinds decode to the
//! catch-all variants, which every analysis ignores.

use vstd::prelude::*;

use crate::ast::Arg;
use crate::ast::ArrowBody;
use crate::ast::Block;
use crate::ast::Decl;
use crate::ast::Expr;
use crate::ast::ForInit;
use crate::ast::JsxChild;
use crate::ast::JsxElem;
use crate::ast::Module;
use crate::ast::ModuleItem;
use crate::ast::ObjectPart;
use crate::ast::Pat;
use crate::ast::PatProp;
use crate::ast::Span;
use crate::ast::Stmt;
use crate::ast::SwitchCase;
use crate::ast::VarDecl;
use crate::ast::VarDeclarator;
use crate::json::JsonValue;
use crate::json::SJson;
use crate::json::jv_view;
use crate::json::jv_view_list;
use crate::json::lemma_jv_view_list_index;
use crate::json::obj_find;
use crate::json::sp_field;
use crate::json::sp_str_field;
use crate::json::sp_tag;
use crate::lines::LineIndex;
use crate::lines::sp_span_of;
use crate::lines::sp_num_field;
use crate::lines::dec_val;
use crate::text::chars_to_string;
use crate::text::str_chars;

verus! {

/// How deep a dotted JSX element name is followed; names nested deeper
/// contribute their inner segments as empty.
pub open spec fn jsx_name_depth() -> nat {
    64
}

/// The field `key` of object `v`, when present.  The result is a part of
/// `v`, so recursion into it terminates.
pub fn field<'a>(v: &'a JsonValue, key: &str) -> (r: Option<&'a JsonValue>)
    ensures
        match r {
            Some(f) => sp_field(v@, key@) == Some(f@) && decreases_to!(*v => *f),
            None => sp_field(v@, key@) is None,
        },
{
    match v {
        JsonValue::Obj(ms) => {
            let k = str_chars(key);
            match obj_find(ms, k.as_slice()) {
                Some(i) => {
                    let f = &ms[i].value;
                    proof {
                        assert(decreases_to!(*v => ms@[i as int].value));
                    }
                    Some(f)
                },
                None => None,
            }
        },
        _ => None,
    }
}

/// Field `key` of `v`, with an explicit `null` treated as absent.
pub open spec fn sp_opt_field(j: SJson, key: Seq<char>) -> Option<SJson> {
    match sp_field(j, key) {
        Some(SJson::Null) => None,
        other => other,
    }
}

pub fn opt_field<'a>(v: &'a JsonValue, key: &str) -> (r: Option<&'a JsonValue>)
    ensures
        match r {
            Some(f) => sp_opt_field(v@, key@) == Some(f@) && decreases_to!(*v => *f),
            None => sp_opt_field(v@, key@) is None,
        },
{
    match field(v, key) {
        Some(f) => match f {
            JsonValue::Null => None,
            _ => Some(f),
        },
        None => None,
    }
}

/// The elements of the array in field `key` of `v`.
pub open spec fn sp_arr_field(j: SJson, key: Seq<char>) -> Seq<SJson> {
    match sp_field(j, key) {
        Some(SJson::Arr(js)) => js,
        _ => Seq::empty(),
    }
}

pub fn arr_field<'a>(v: &'a JsonValue, key: &str) -> (r: Option<&'a Vec<JsonValue>>)
    ensures
        match r {
            Some(items) => sp_arr_field(v@, key@) == jv_view_list(items@) && decreases_to!(
                *v => *items
            ),
            None => sp_arr_field(v@, key@) == Seq::<SJson>::empty(),
        },
{
    match field(v, key) {
        Some(f) => match f {
            JsonValue::Arr(items) => {
                proof {
                    assert(decreases_to!(*f => *items));
                }
                Some(items)
            },
            _ => None,
        },
        None => None,
    }
}

/// The string content of field `key` of `v`.
pub fn str_field(v: &JsonValue, key: &str) -> (r: Option<String>)
    ensures
        match r {
            Some(s) => sp_str_field(v@, key@) == Some(s@),
            None => sp_str_field(v@, key@) is None,
        },
{
    match field(v, key) {
        Some(f) => match f {
            JsonValue::Str(cs) => Some(chars_to_string(cs.as_slice())),
            _ => None,
        },
        _ => None,
    }
}

/// Whether `t` is the string `lit`.
pub fn str_is(t: &String, lit: &str) -> (r: bool)
    ensures
        r == (t@ == lit@),
{
    let l = String::from_str(lit);
    *t == l
}

/// The number in field `key` of `v`, 0 when missing.
pub fn num_field(v: &JsonValue, key: &str) -> (r: u32)
    ensures
        r as int == sp_num_field(v@, key@),
{
    match field(v, key) {
        Some(f) => match f {
            JsonValue::Num(raw) => dec_val(raw.as_slice()),
            _ => 0,
        },
        _ => 0,
    }
}

/// The source range of node `v`, from its `span` field.
pub fn span_of(v: &JsonValue, li: &LineIndex) -> (r: Span)
    requires
        li.wf(),
    ensures
        r == sp_span_of(v@, li.chars@, li.base),
{
    let sp = field(v, "span");
    let (lo, hi) = match sp {
        Some(s) => (num_field(s, "start"), num_field(s, "end")),
        None => (0, 0),
    };
    proof {
        if sp is None {
            assert(sp_num_field(SJson::Null, "start"@) == 0);
        }
    }
    let (sl, sc) = li.loc(lo);
    let (el, ec) = li.loc(hi);
    Span { start_line: sl, start_col: sc, end_line: el, end_col: ec }
}

/// The tag under the `type` field, empty when there is none.
pub fn tag_of(v: &JsonValue) -> (r: String)
    ensures
        r@ == sp_tag(v@),
{
    match field(v, "type") {
        Some(f) => match f {
            JsonValue::Str(cs) => chars_to_string(cs.as_slice()),
            _ => String::new(),
        },
        _ => String::new(),
    }
}

pub open spec fn zero_span() -> Span {
    Span { start_line: 0, start_col: 0, end_line: 0, end_col: 0 }
}

/// The dotted name of a JSX element-name node: `Foo`, `Foo.Bar`, `ns:n`.
pub open spec fn sp_jsx_name(j: SJson, fuel: nat) -> Seq<char>
    decreases fuel,
{
    if fuel == 0 {
        Seq::empty()
    } else {
        let t = sp_tag(j);
        if t == "Identifier"@ {
            match sp_str_field(j, "value"@) {
                Some(s) => s,
                None => Seq::empty(),
            }
        } else if t == "JSXMemberExpression"@ {
            let objpart = match sp_field(j, "object"@) {
                Some(o) => sp_jsx_name(o, (fuel - 1) as nat),
                None => Seq::empty(),
            };
            let proppart = match sp_field(j, "property"@) {
                Some(p) => match sp_str_field(p, "value"@) {
                    Some(s) => s,
                    None => Seq::empty(),
                },
                None => Seq::empty(),
            };
            objpart + "."@ + proppart
        } else if t == "JSXNamespacedName"@ {
            let nspart = match sp_field(j, "namespace"@) {
                Some(n) => match sp_str_field(n, "value"@) {
                    Some(s) => s,
                    None => Seq::empty(),
                },
                None => Seq::empty(),
            };
            let namepart = match sp_field(j, "name"@) {
                Some(n) => match sp_str_field(n, "value"@) {
                    Some(s) => s,
                    None => Seq::empty(),
                },
                None => Seq::empty(),
            };
            nspart + ":"@ + namepart
        } else {
            Seq::empty()
        }
    }
}

fn dec_jsx_name(v: &JsonValue, fuel: u32) -> (r: String)
    ensures
        r@ == sp_jsx_name(v@, fuel as nat),
    decreases fuel,
{
    if fuel == 0 {
        return String::new();
    }
    let t = tag_of(v);
    if str_is(&t, "Identifier") {
        match str_field(v, "value") {
            Some(s) => s,
            None => String::new(),
        }
    } else if str_is(&t, "JSXMemberExpression") {
        let mut objpart = match field(v, "object") {
            Some(o) => dec_jsx_name(o, fuel - 1),
            None => String::new(),
        };
        let proppart = match field(v, "property") {
            Some(p) => match str_field(p, "value") {
                Some(s) => s,
                None => String::new(),
            },
            None => String::new(),
        };
        objpart.append(".");
        objpart.append(proppart.as_str());
        objpart
    } else if str_is(&t, "JSXNamespacedName") {
        let mut nspart = match field(v, "namespace") {
            Some(n) => match str_field(n, "value") {
                Some(s) => s,
                None => String::new(),
            },
            None => String::new(),
        };
        let namepart = match field(v, "name") {
            Some(n) => match str_field(n, "value") {
                Some(s) => s,
                None => String::new(),
            },
            None => String::new(),
        };
        nspart.append(":");
        nspart.append(namepart.as_str());
        nspart
    } else {
        String::new()
    }
}

// ---------------------------------------------------------------------------
// Relations: which tree a serialized node denotes.
// ---------------------------------------------------------------------------

pub open spec fn rel_expr(j: SJson, src: Seq<char>, base: u32, e: Expr) -> bool
    decreases e, 0int,
{
    let t = sp_tag(j);
    if t == "StringLiteral"@ {
        match sp_str_field(j, "value"@) {
            Some(s) => e matches Expr::StrLit { value } && value@ == s,
            None => e is Other,
        }
    } else if t == "TemplateLiteral"@ {
        e matches Expr::Tpl { quasis, exprs } && rel_quasis(sp_arr_field(j, "quasis"@), quasis@)
            && rel_exprs(sp_arr_field(j, "expressions"@), src, base, exprs@)
    } else if t == "Identifier"@ {
        match sp_str_field(j, "value"@) {
            Some(s) => e matches Expr::Ident { name, line } && name@ == s && line == sp_span_of(j, src, base).start_line,
            None => e is Other,
        }
    } else if t == "BinaryExpression"@ {
        match (sp_field(j, "left"@), sp_field(j, "right"@)) {
            (Some(jl), Some(jr)) => {
                if sp_str_field(j, "operator"@) == Some("+"@) {
                    e matches Expr::Add { left, right } && rel_expr(jl, src, base, *left) && rel_expr(
                        jr,
                        src,
                        base,
                        *right,
                    )
                } else {
                    e matches Expr::BinOther { left, right } && rel_expr(jl, src, base, *left)
                        && rel_expr(jr, src, base, *right)
                }
            },
            _ => e is Other,
        }
    } else if t == "ParenthesisExpression"@ || t == "TsAsExpression"@ || t
        == "TsSatisfiesExpression"@ || t == "TsNonNullExpression"@ || t == "TsConstAssertion"@ {
        match sp_field(j, "expression"@) {
            Some(inner) => e matches Expr::Wrap { inner: ei } && rel_expr(inner, src, base, *ei),
            None => e is Other,
        }
    } else if t == "CallExpression"@ {
        e matches Expr::Call { callee, args, line } && rel_callee(
            sp_field(j, "callee"@),
            src,
            base,
            callee,
        ) && rel_args(sp_arr_field(j, "arguments"@), src, base, args@) && line == sp_span_of(j, src, base).start_line
    } else if t == "MemberExpression"@ {
        match sp_field(j, "object"@) {
            Some(jo) => e matches Expr::Member { obj, prop, computed } && rel_expr(jo, src, base, *obj)
                && rel_member_prop(sp_field(j, "property"@), src, base, prop, computed),
            None => e is Other,
        }
    } else if t == "ArrowFunctionExpression"@ {
        e matches Expr::Arrow { body } && rel_arrow_body(
            sp_opt_field(j, "body"@),
            src,
            base,
            sp_span_of(j, src, base),
            body,
        )
    } else if t == "FunctionExpression"@ {
        e matches Expr::Func { body } && rel_fn_body(sp_opt_field(j, "body"@), src, base, body)
    } else if t == "ConditionalExpression"@ {
        match (sp_field(j, "test"@), sp_field(j, "consequent"@), sp_field(j, "alternate"@)) {
            (Some(jt), Some(jc), Some(ja)) => e matches Expr::Cond { test, cons, alt } && rel_expr(
                jt,
                src,
                base,
                *test,
            ) && rel_expr(jc, src, base, *cons) && rel_expr(ja, src, base, *alt),
            _ => e is Other,
        }
    } else if t == "AssignmentExpression"@ {
        match sp_field(j, "right"@) {
            Some(jr) => e matches Expr::Assign { right } && rel_expr(jr, src, base, *right),
            None => e is Other,
        }
    } else if t == "ArrayExpression"@ {
        e matches Expr::Array { elems } && rel_array_elems(sp_arr_field(j, "elements"@), src, base, elems@)
    } else if t == "ObjectExpression"@ {
        e matches Expr::Object { parts } && rel_object_parts(
            sp_arr_field(j, "properties"@),
            src,
            base,
            parts@,
        )
    } else if t == "TaggedTemplateExpression"@ {
        match sp_field(j, "tag"@) {
            Some(jt) => e matches Expr::TaggedTpl { tag, exprs } && rel_expr(jt, src, base, *tag)
                && rel_exprs(
                match sp_field(j, "template"@) {
                    Some(tpl) => sp_arr_field(tpl, "expressions"@),
                    None => Seq::empty(),
                },
                src,
                base,
                exprs@,
            ),
            None => e is Other,
        }
    } else if t == "SequenceExpression"@ {
        e matches Expr::Comma { exprs } && rel_exprs(sp_arr_field(j, "expressions"@), src, base, exprs@)
    } else if t == "JSXElement"@ {
        e matches Expr::Jsx(el) && rel_jsx_elem(j, src, base, *el)
    } else if t == "JSXFragment"@ {
        e matches Expr::JsxFrag { children } && rel_children(
            sp_arr_field(j, "children"@),
            src,
            base,
            children@,
        )
    } else if t == "AwaitExpression"@ {
        match sp_field(j, "argument"@) {
            Some(ja) => e matches Expr::Await { inner } && rel_expr(ja, src, base, *inner),
            None => e is Other,
        }
    } else if t == "YieldExpression"@ {
        e matches Expr::Yield { inner } && rel_opt_expr(sp_opt_field(j, "argument"@), src, base, inner)
    } else if t == "UnaryExpression"@ {
        match sp_field(j, "argument"@) {
            Some(ja) => e matches Expr::Unary { inner } && rel_expr(ja, src, base, *inner),
            None => e is Other,
        }
    } else {
        e is Other
    }
}

pub open spec fn rel_opt_expr(j: Option<SJson>, src: Seq<char>, base: u32, e: Option<Box<Expr>>) -> bool
    decreases e, 0int,
{
    match j {
        Some(jv) => e matches Some(ev) && rel_expr(jv, src, base, *ev),
        None => e is None,
    }
}

/// The callee of a call: absent for `super`/`import`, else an expression.
pub open spec fn rel_callee(j: Option<SJson>, src: Seq<char>, base: u32, e: Option<Box<Expr>>) -> bool
    decreases e, 0int,
{
    match j {
        Some(jc) => {
            if sp_tag(jc) == "Super"@ || sp_tag(jc) == "Import"@ {
                e is None
            } else {
                e matches Some(ev) && rel_expr(jc, src, base, *ev)
            }
        },
        None => e is None,
    }
}

/// A member access's property: a plain name, a computed index, or neither.
pub open spec fn rel_member_prop(
    j: Option<SJson>,
    src: Seq<char>, base: u32,
    prop: Option<String>,
    computed: Option<Box<Expr>>,
) -> bool
    decreases computed, 0int,
{
    match j {
        Some(jp) => {
            if sp_tag(jp) == "Identifier"@ {
                match sp_str_field(jp, "value"@) {
                    Some(s) => prop matches Some(p) && p@ == s && computed is None,
                    None => prop is None && computed is None,
                }
            } else if sp_tag(jp) == "Computed"@ {
                match sp_field(jp, "expression"@) {
                    Some(je) => prop is None && (computed matches Some(ce) && rel_expr(
                        je,
                        src,
                        base,
                        *ce,
                    )),
                    None => prop is None && computed is None,
                }
            } else {
                prop is None && computed is None
            }
        },
        None => prop is None && computed is None,
    }
}

/// Elements of a 1:1 expression list.
pub open spec fn rel_exprs(js: Seq<SJson>, src: Seq<char>, base: u32, es: Seq<Expr>) -> bool
    decreases es, 0int,
{
    js.len() == es.len() && (forall|i: int|
        0 <= i < js.len() ==> rel_expr(js[i], src, base, #[trigger] es[i]))
}

/// Template literal quasis: the raw text of each element.
pub open spec fn rel_quasis(js: Seq<SJson>, qs: Seq<String>) -> bool {
    js.len() == qs.len() && (forall|i: int|
        0 <= i < js.len() ==> match sp_str_field(js[i], "raw"@) {
            Some(s) => (#[trigger] qs[i])@ == s,
            None => qs[i]@ == Seq::<char>::empty(),
        })
}

/// One call argument: its expression and that expression's range.
pub open spec fn rel_arg(j: SJson, src: Seq<char>, base: u32, a: Arg) -> bool
    decreases a, 0int,
{
    match sp_field(j, "expression"@) {
        Some(je) => rel_expr(je, src, base, a.expr) && a.span == sp_span_of(je, src, base),
        None => a.expr is Other && a.span == zero_span(),
    }
}

pub open spec fn rel_args(js: Seq<SJson>, src: Seq<char>, base: u32, args: Seq<Arg>) -> bool
    decreases args, 0int,
{
    js.len() == args.len() && (forall|i: int|
        0 <= i < js.len() ==> rel_arg(js[i], src, base, #[trigger] args[i]))
}

/// The non-hole elements of an array literal.
pub open spec fn non_null_elems(js: Seq<SJson>) -> Seq<SJson> {
    js.filter(|j: SJson| !(j is Null))
}

/// Array literal elements: holes are skipped, spread and plain elements
/// contribute their expression.
pub open spec fn rel_array_elems(js: Seq<SJson>, src: Seq<char>, base: u32, es: Seq<Expr>) -> bool
    decreases es, 0int,
{
    &&& non_null_elems(js).len() == es.len()
    &&& forall|i: int|
        0 <= i < es.len() ==> rel_arg_expr(non_null_elems(js)[i], src, base, #[trigger] es[i])
}

/// The expression inside an element holder (`expression` field).
pub open spec fn rel_arg_expr(j: SJson, src: Seq<char>, base: u32, e: Expr) -> bool
    decreases e, 1int,
{
    match sp_field(j, "expression"@) {
        Some(je) => rel_expr(je, src, base, e),
        None => e is Other,
    }
}

/// One object-literal property.
pub open spec fn rel_object_part(j: SJson, src: Seq<char>, base: u32, p: ObjectPart) -> bool
    decreases p, 0int,
{
    let t = sp_tag(j);
    if t == "KeyValueProperty"@ {
        match sp_field(j, "value"@) {
            Some(jv) => p matches ObjectPart::Value(e) && rel_expr(jv, src, base, e),
            None => p is Other,
        }
    } else if t == "SpreadElement"@ {
        match sp_field(j, "arguments"@) {
            Some(jv) => p matches ObjectPart::Spread(e) && rel_expr(jv, src, base, e),
            None => p is Other,
        }
    } else {
        p is Other
    }
}

pub open spec fn rel_object_parts(js: Seq<SJson>, src: Seq<char>, base: u32, ps: Seq<ObjectPart>) -> bool
    decreases ps, 0int,
{
    js.len() == ps.len() && (forall|i: int|
        0 <= i < js.len() ==> rel_object_part(js[i], src, base, #[trigger] ps[i]))
}

/// A function body: a block when one is there.
pub open spec fn rel_fn_body(j: Option<SJson>, src: Seq<char>, base: u32, b: Option<Block>) -> bool
    decreases b, 0int,
{
    match j {
        Some(jb) => {
            if sp_tag(jb) == "FunctionBody"@ {
                b matches Some(bl) && rel_block(jb, src, base, bl)
            } else {
                b is None
            }
        },
        None => b is None,
    }
}

/// A block: its statements and the line range it spans.
pub open spec fn rel_block(j: SJson, src: Seq<char>, base: u32, b: Block) -> bool
    decreases b, 0int,
{
    rel_stmts(sp_arr_field(j, "stmts"@), src, base, b.stmts@) && b.start_line == sp_span_of(j, src, base).start_line && b.end_line == sp_span_of(j, src, base).end_line
}

/// An arrow's body: a block, or an expression spanning the arrow's range.
pub open spec fn rel_arrow_body(
    j: Option<SJson>,
    src: Seq<char>, base: u32,
    arrow_span: Span,
    b: ArrowBody,
) -> bool
    decreases b, 0int,
{
    match j {
        Some(jb) => {
            if sp_tag(jb) == "FunctionBody"@ {
                b matches ArrowBody::Block(bl) && rel_block(jb, src, base, bl)
            } else {
                b matches ArrowBody::Expr { expr, start_line, end_line } && rel_expr(jb, src, base, *expr)
                    && start_line == arrow_span.start_line && end_line == arrow_span.end_line
            }
        },
        None => b matches ArrowBody::Expr { expr, start_line, end_line } && *expr is Other
            && start_line == arrow_span.start_line && end_line == arrow_span.end_line,
    }
}

pub open spec fn rel_stmt(j: SJson, src: Seq<char>, base: u32, s: Stmt) -> bool
    decreases s, 3int,
{
    let t = sp_tag(j);
    if t == "ExpressionStatement"@ {
        match sp_field(j, "expression"@) {
            Some(je) => s matches Stmt::Expr { expr } && rel_expr(je, src, base, *expr),
            None => s is Other,
        }
    } else if t == "VariableDeclaration"@ {
        s matches Stmt::Decl(d) && d matches Decl::Var(vd) && rel_var_decl(j, src, base, vd)
    } else if t == "FunctionDeclaration"@ {
        s matches Stmt::Decl(d) && d matches Decl::Func { body } && rel_fn_body(
            sp_opt_field(j, "body"@),
            src,
            base,
            body,
        )
    } else if t == "ReturnStatement"@ {
        s matches Stmt::Return { arg } && rel_opt_expr(sp_opt_field(j, "argument"@), src, base, arg)
    } else if t == "BlockStatement"@ {
        s matches Stmt::Block { stmts } && rel_stmts(sp_arr_field(j, "stmts"@), src, base, stmts@)
    } else if t == "IfStatement"@ {
        match (sp_field(j, "test"@), sp_field(j, "consequent"@)) {
            (Some(jt), Some(jc)) => s matches Stmt::If { test, cons, alt } && rel_expr(
                jt,
                src,
                base,
                *test,
            ) && rel_stmt_box(jc, src, base, cons) && rel_opt_stmt(sp_opt_field(j, "alternate"@), src, base, alt),
            _ => s is Other,
        }
    } else if t == "SwitchStatement"@ {
        match sp_field(j, "discriminant"@) {
            Some(jd) => s matches Stmt::Switch { disc, cases } && rel_expr(jd, src, base, *disc)
                && rel_cases(sp_arr_field(j, "cases"@), src, base, cases@),
            None => s is Other,
        }
    } else if t == "ForStatement"@ {
        match sp_field(j, "body"@) {
            Some(jb) => s matches Stmt::For { init, test, update, body } && rel_for_init(
                sp_opt_field(j, "init"@),
                src,
                base,
                init,
            ) && rel_opt_expr(sp_opt_field(j, "test"@), src, base, test) && rel_opt_expr(
                sp_opt_field(j, "update"@),
                src,
                base,
                update,
            ) && rel_stmt_box(jb, src, base, body),
            None => s is Other,
        }
    } else if t == "ForInStatement"@ || t == "ForOfStatement"@ {
        match (sp_field(j, "right"@), sp_field(j, "body"@)) {
            (Some(jr), Some(jb)) => s matches Stmt::ForEach { left, right, body } && rel_for_left(
                sp_opt_field(j, "left"@),
                src,
                base,
                left,
            ) && rel_expr(jr, src, base, *right) && rel_stmt_box(jb, src, base, body),
            _ => s is Other,
        }
    } else if t == "WhileStatement"@ {
        match (sp_field(j, "test"@), sp_field(j, "body"@)) {
            (Some(jt), Some(jb)) => s matches Stmt::While { test, body } && rel_expr(jt, src, base, *test)
                && rel_stmt_box(jb, src, base, body),
            _ => s is Other,
        }
    } else if t == "DoWhileStatement"@ {
        match (sp_field(j, "test"@), sp_field(j, "body"@)) {
            (Some(jt), Some(jb)) => s matches Stmt::DoWhile { body, test } && rel_expr(
                jt,
                src,
                base,
                *test,
            ) && rel_stmt_box(jb, src, base, body),
            _ => s is Other,
        }
    } else if t == "TryStatement"@ {
        s matches Stmt::Try { block, handler, finalizer } && rel_stmts(
            match sp_field(j, "block"@) {
                Some(jb) => sp_arr_field(jb, "stmts"@),
                None => Seq::empty(),
            },
            src,
            base,
            block@,
        ) && rel_catch(sp_opt_field(j, "handler"@), src, base, handler) && rel_opt_block_stmts(
            sp_opt_field(j, "finalizer"@),
            src,
            base,
            finalizer,
        )
    } else {
        s is Other
    }
}

pub open spec fn rel_stmt_box(j: SJson, src: Seq<char>, base: u32, s: Box<Stmt>) -> bool
    decreases s, 4int,
{
    rel_stmt(j, src, base, *s)
}

pub open spec fn rel_opt_stmt(j: Option<SJson>, src: Seq<char>, base: u32, s: Option<Box<Stmt>>) -> bool
    decreases s, 4int,
{
    match j {
        Some(jv) => s matches Some(sv) && rel_stmt(jv, src, base, *sv),
        None => s is None,
    }
}

pub open spec fn rel_stmts(js: Seq<SJson>, src: Seq<char>, base: u32, ss: Seq<Stmt>) -> bool
    decreases ss, 0int,
{
    js.len() == ss.len() && (forall|i: int|
        0 <= i < js.len() ==> rel_stmt(js[i], src, base, #[trigger] ss[i]))
}

/// A catch handler: the statements of its body block.
pub open spec fn rel_catch(j: Option<SJson>, src: Seq<char>, base: u32, h: Option<Vec<Stmt>>) -> bool
    decreases h, 1int,
{
    match j {
        Some(jc) => h matches Some(ss) && rel_stmts(
            match sp_field(jc, "body"@) {
                Some(jb) => sp_arr_field(jb, "stmts"@),
                None => Seq::empty(),
            },
            src,
            base,
            ss@,
        ),
        None => h is None,
    }
}

/// An optional block holding statements (a try finalizer).
pub open spec fn rel_opt_block_stmts(j: Option<SJson>, src: Seq<char>, base: u32, b: Option<Vec<Stmt>>) -> bool
    decreases b, 1int,
{
    match j {
        Some(jb) => b matches Some(ss) && rel_stmts(sp_arr_field(jb, "stmts"@), src, base, ss@),
        None => b is None,
    }
}

pub open spec fn rel_case(j: SJson, src: Seq<char>, base: u32, c: SwitchCase) -> bool
    decreases c, 1int,
{
    rel_opt_expr(sp_opt_field(j, "test"@), src, base, c.test) && rel_stmts(
        sp_arr_field(j, "consequent"@),
        src,
        base,
        c.cons@,
    )
}

pub open spec fn rel_cases(js: Seq<SJson>, src: Seq<char>, base: u32, cs: Seq<SwitchCase>) -> bool
    decreases cs, 0int,
{
    js.len() == cs.len() && (forall|i: int|
        0 <= i < js.len() ==> rel_case(js[i], src, base, #[trigger] cs[i]))
}

pub open spec fn rel_for_init(j: Option<SJson>, src: Seq<char>, base: u32, f: Option<ForInit>) -> bool
    decreases f, 1int,
{
    match j {
        Some(jv) => {
            if sp_tag(jv) == "VariableDeclaration"@ {
                f matches Some(ForInit::Var(vd)) && rel_var_decl(jv, src, base, vd)
            } else {
                f matches Some(ForInit::Expr(e)) && rel_expr(jv, src, base, *e)
            }
        },
        None => f is None,
    }
}

/// The left head of `for..in`/`for..of`: kept when it declares variables.
pub open spec fn rel_for_left(j: Option<SJson>, src: Seq<char>, base: u32, f: Option<VarDecl>) -> bool
    decreases f, 1int,
{
    match j {
        Some(jv) => {
            if sp_tag(jv) == "VariableDeclaration"@ {
                f matches Some(vd) && rel_var_decl(jv, src, base, vd)
            } else {
                f is None
            }
        },
        None => f is None,
    }
}

pub open spec fn rel_var_decl(j: SJson, src: Seq<char>, base: u32, d: VarDecl) -> bool
    decreases d, 1int,
{
    d.is_const == (sp_str_field(j, "kind"@) == Some("const"@)) && rel_declarators(
        sp_arr_field(j, "declarations"@),
        src,
        base,
        d.decls@,
    )
}

pub open spec fn rel_declarator(j: SJson, src: Seq<char>, base: u32, d: VarDeclarator) -> bool
    decreases d, 1int,
{
    rel_pat(sp_field(j, "id"@), d.name) && rel_opt_expr(sp_opt_field(j, "init"@), src, base, d.init)
}

pub open spec fn rel_declarators(js: Seq<SJson>, src: Seq<char>, base: u32, ds: Seq<VarDeclarator>) -> bool
    decreases ds, 0int,
{
    js.len() == ds.len() && (forall|i: int|
        0 <= i < js.len() ==> rel_declarator(js[i], src, base, #[trigger] ds[i]))
}

pub open spec fn rel_pat(j: Option<SJson>, p: Pat) -> bool
    decreases p, 2int,
{
    match j {
        Some(jp) => {
            let t = sp_tag(jp);
            if t == "Identifier"@ {
                match sp_str_field(jp, "value"@) {
                    Some(s) => p matches Pat::Ident { name } && name@ == s,
                    None => p is Other,
                }
            } else if t == "ObjectPattern"@ {
                p matches Pat::Object { props } && rel_pat_props(
                    sp_arr_field(jp, "properties"@),
                    props@,
                )
            } else if t == "ArrayPattern"@ {
                p matches Pat::Array { elems } && rel_pat_elems(
                    sp_arr_field(jp, "elements"@),
                    elems@,
                )
            } else {
                p is Other
            }
        },
        None => p is Other,
    }
}

pub open spec fn rel_pat_elems(js: Seq<SJson>, ps: Seq<Pat>) -> bool
    decreases ps, 0int,
{
    js.len() == ps.len() && (forall|i: int|
        0 <= i < js.len() ==> {
            if js[i] is Null {
                (#[trigger] ps[i]) is Missing
            } else {
                rel_pat(Some(js[i]), ps[i])
            }
        })
}

pub open spec fn rel_pat_prop(j: SJson, p: PatProp) -> bool
    decreases p, 3int,
{
    let t = sp_tag(j);
    if t == "AssignmentPatternProperty"@ {
        match sp_field(j, "key"@) {
            Some(jk) => match sp_str_field(jk, "value"@) {
                Some(s) => p matches PatProp::Shorthand { key } && key@ == s,
                None => p is Rest,
            },
            None => p is Rest,
        }
    } else if t == "KeyValuePatternProperty"@ {
        match sp_field(j, "value"@) {
            Some(jv) => {
                p matches PatProp::KeyValue { key, value } && rel_pat(Some(jv), *value) && (match sp_field(
                    j,
                    "key"@,
                ) {
                    Some(jk) => {
                        if sp_tag(jk) == "Identifier"@ {
                            match sp_str_field(jk, "value"@) {
                                Some(s) => key matches Some(k) && k@ == s,
                                None => key is None,
                            }
                        } else {
                            key is None
                        }
                    },
                    None => key is None,
                })
            },
            None => p is Rest,
        }
    } else {
        p is Rest
    }
}

pub open spec fn rel_pat_props(js: Seq<SJson>, ps: Seq<PatProp>) -> bool
    decreases ps, 0int,
{
    js.len() == ps.len() && (forall|i: int|
        0 <= i < js.len() ==> rel_pat_prop(js[i], #[trigger] ps[i]))
}

/// One JSX element: its dotted name, the expressions of its attribute
/// containers, and its children.
pub open spec fn rel_jsx_elem(j: SJson, src: Seq<char>, base: u32, el: JsxElem) -> bool
    decreases el, 1int,
{
    let opening = match sp_field(j, "opening"@) {
        Some(o) => o,
        None => SJson::Null,
    };
    el.name@ == (match sp_field(opening, "name"@) {
        Some(n) => sp_jsx_name(n, jsx_name_depth()),
        None => Seq::<char>::empty(),
    }) && rel_attrs(sp_arr_field(opening, "attributes"@), src, base, el.attrs@) && rel_children(
        sp_arr_field(j, "children"@),
        src,
        base,
        el.children@,
    )
}

/// The attributes that hold an expression container, reduced to the
/// contained expressions.
pub open spec fn attr_exprs(js: Seq<SJson>) -> Seq<SJson> {
    js.filter(|j: SJson| attr_container_expr(j) is Some).map_values(
        |j: SJson| attr_container_expr(j)->Some_0,
    )
}

/// Attribute list: only expression-container values contribute, each its
/// inner expression.
pub open spec fn rel_attrs(js: Seq<SJson>, src: Seq<char>, base: u32, es: Seq<Expr>) -> bool
    decreases es, 0int,
{
    &&& attr_exprs(js).len() == es.len()
    &&& forall|i: int| 0 <= i < es.len() ==> rel_expr(attr_exprs(js)[i], src, base, #[trigger] es[i])
}

/// The inner expression of a `name={expr}` attribute, if this attribute has
/// that form.
pub open spec fn attr_container_expr(j: SJson) -> Option<SJson> {
    if sp_tag(j) == "JSXAttribute"@ {
        match sp_opt_field(j, "value"@) {
            Some(jv) => {
                if sp_tag(jv) == "JSXExpressionContainer"@ {
                    match sp_field(jv, "expression"@) {
                        Some(je) => {
                            if sp_tag(je) == "JSXEmptyExpression"@ {
                                None
                            } else {
                                Some(je)
                            }
                        },
                        None => None,
                    }
                } else {
                    None
                }
            },
            None => None,
        }
    } else {
        None
    }
}

pub open spec fn rel_jsx_child(j: SJson, src: Seq<char>, base: u32, c: JsxChild) -> bool
    decreases c, 2int,
{
    let t = sp_tag(j);
    if t == "JSXText"@ {
        match sp_str_field(j, "value"@) {
            Some(s) => c matches JsxChild::Text { value, span } && value@ == s && span
                == sp_span_of(j, src, base),
            None => c is Other,
        }
    } else if t == "JSXExpressionContainer"@ {
        c matches JsxChild::Container { expr, span, expr_span } && span == sp_span_of(j, src, base) && (
        match sp_field(j, "expression"@) {
            Some(je) => {
                if sp_tag(je) == "JSXEmptyExpression"@ {
                    expr is None && expr_span == sp_span_of(j, src, base)
                } else {
                    expr matches Some(e) && rel_expr(je, src, base, *e) && expr_span == sp_span_of(je, src, base)
                }
            },
            None => expr is None && expr_span == sp_span_of(j, src, base),
        })
    } else if t == "JSXElement"@ {
        c matches JsxChild::Elem(el) && rel_jsx_elem(j, src, base, *el)
    } else if t == "JSXFragment"@ {
        c matches JsxChild::Frag { children } && rel_children(
            sp_arr_field(j, "children"@),
            src,
            base,
            children@,
        )
    } else {
        c is Other
    }
}

pub open spec fn rel_children(js: Seq<SJson>, src: Seq<char>, base: u32, cs: Seq<JsxChild>) -> bool
    decreases cs, 0int,
{
    js.len() == cs.len() && (forall|i: int|
        0 <= i < js.len() ==> rel_jsx_child(js[i], src, base, #[trigger] cs[i]))
}

pub open spec fn rel_module_item(j: SJson, src: Seq<char>, base: u32, m: ModuleItem) -> bool
    decreases m, 4int,
{
    let t = sp_tag(j);
    if t == "ExportDeclaration"@ {
        m matches ModuleItem::ExportDecl(d) && rel_decl(sp_field(j, "declaration"@), src, base, d)
    } else if t == "ExportDefaultExpression"@ {
        match sp_field(j, "expression"@) {
            Some(je) => m matches ModuleItem::ExportDefaultExpr(e) && rel_expr(je, src, base, *e),
            None => m is Other,
        }
    } else if t == "ExportDefaultDeclaration"@ {
        match sp_field(j, "decl"@) {
            Some(jd) => {
                if sp_tag(jd) == "FunctionExpression"@ {
                    m matches ModuleItem::ExportDefaultFunc { body } && rel_fn_body(
                        sp_opt_field(jd, "body"@),
                        src,
                        base,
                        body,
                    )
                } else {
                    m is Other
                }
            },
            None => m is Other,
        }
    } else if t == "ImportDeclaration"@ || t == "ExportNamedDeclaration"@ || t == "ExportAll"@
        || t == "TsImportEqualsDeclaration"@ || t == "TsExportAssignment"@ || t
        == "TsNamespaceExportDeclaration"@ {
        m is Other
    } else {
        m matches ModuleItem::Stmt(s) && rel_stmt(j, src, base, s)
    }
}

pub open spec fn rel_decl(j: Option<SJson>, src: Seq<char>, base: u32, d: Decl) -> bool
    decreases d, 2int,
{
    match j {
        Some(jd) => {
            let t = sp_tag(jd);
            if t == "VariableDeclaration"@ {
                d matches Decl::Var(vd) && rel_var_decl(jd, src, base, vd)
            } else if t == "FunctionDeclaration"@ {
                d matches Decl::Func { body } && rel_fn_body(sp_opt_field(jd, "body"@), src, base, body)
            } else {
                d is Other
            }
        },
        None => d is Other,
    }
}

pub open spec fn rel_module_items(js: Seq<SJson>, src: Seq<char>, base: u32, ms: Seq<ModuleItem>) -> bool
    decreases ms, 0int,
{
    js.len() == ms.len() && (forall|i: int|
        0 <= i < js.len() ==> rel_module_item(js[i], src, base, #[trigger] ms[i]))
}

/// Whether the serialized program `j` denotes the module `m`.
pub open spec fn rel_module(j: SJson, src: Seq<char>, base: u32, m: Module) -> bool {
    if sp_tag(j) == "Module"@ {
        rel_module_items(sp_arr_field(j, "body"@), src, base, m.body@)
    } else {
        m.body@.len() == 0
    }
}


// ---------------------------------------------------------------------------
// Decoders: establish the relations.
// ---------------------------------------------------------------------------

proof fn lemma_non_null_push(s: Seq<SJson>, x: SJson)
    ensures
        non_null_elems(s.push(x)) == if !(x is Null) {
            non_null_elems(s).push(x)
        } else {
            non_null_elems(s)
        },
{
    reveal(Seq::filter);
    assert(s.push(x).drop_last() =~= s);
    assert(s.push(x).last() == x);
}

proof fn lemma_non_null_empty()
    ensures
        non_null_elems(Seq::<SJson>::empty()) == Seq::<SJson>::empty(),
{
    reveal(Seq::filter);
}

proof fn lemma_attr_exprs_push(s: Seq<SJson>, x: SJson)
    ensures
        attr_exprs(s.push(x)) == if attr_container_expr(x) is Some {
            attr_exprs(s).push(attr_container_expr(x)->Some_0)
        } else {
            attr_exprs(s)
        },
{
    reveal(Seq::filter);
    assert(s.push(x).drop_last() =~= s);
    assert(s.push(x).last() == x);
    let p = |j: SJson| attr_container_expr(j) is Some;
    let f = |j: SJson| attr_container_expr(j)->Some_0;
    if attr_container_expr(x) is Some {
        assert(s.push(x).filter(p) == s.filter(p).push(x));
        assert(s.push(x).filter(p).map_values(f) =~= s.filter(p).map_values(f).push(f(x)));
    } else {
        assert(s.push(x).filter(p) == s.filter(p));
    }
}

proof fn lemma_attr_exprs_empty()
    ensures
        attr_exprs(Seq::<SJson>::empty()) == Seq::<SJson>::empty(),
{
    reveal(Seq::filter);
    let p = |j: SJson| attr_container_expr(j) is Some;
    assert(Seq::<SJson>::empty().filter(p) == Seq::<SJson>::empty());
    assert(Seq::<SJson>::empty().map_values(
        |j: SJson| attr_container_expr(j)->Some_0,
    ) =~= Seq::<SJson>::empty());
}

fn dec_exprs(items: &Vec<JsonValue>, li: &LineIndex) -> (r: Vec<Expr>)
    requires
        li.wf(),
    ensures
        rel_exprs(jv_view_list(items@), li.chars@, li.base, r@),
    decreases *items, 0int,
{
    let mut out: Vec<Expr> = Vec::new();
    let mut i: usize = 0;
    proof {
        crate::json::lemma_jv_view_list_len(items@);
    }
    while i < items.len()
        invariant
            li.wf(),
            i <= items@.len(),
            jv_view_list(items@).len() == items@.len(),
            out@.len() == i,
            forall|m: int|
                0 <= m < i ==> rel_expr(jv_view_list(items@)[m], li.chars@, li.base, #[trigger] out@[m]),
        decreases items@.len() - i,
    {
        proof {
            lemma_jv_view_list_index(items@, i as int);
            assert(decreases_to!(*items => items@[i as int]));
        }
        let e = dec_expr(&items[i], li);
        out.push(e);
        i += 1;
    }
    out
}

fn dec_args(items: &Vec<JsonValue>, li: &LineIndex) -> (r: Vec<Arg>)
    requires
        li.wf(),
    ensures
        rel_args(jv_view_list(items@), li.chars@, li.base, r@),
    decreases *items, 0int,
{
    let mut out: Vec<Arg> = Vec::new();
    let mut i: usize = 0;
    proof {
        crate::json::lemma_jv_view_list_len(items@);
    }
    while i < items.len()
        invariant
            li.wf(),
            i <= items@.len(),
            jv_view_list(items@).len() == items@.len(),
            out@.len() == i,
            forall|m: int|
                0 <= m < i ==> rel_arg(jv_view_list(items@)[m], li.chars@, li.base, #[trigger] out@[m]),
        decreases items@.len() - i,
    {
        proof {
            lemma_jv_view_list_index(items@, i as int);
            assert(decreases_to!(*items => items@[i as int]));
        }
        let item = &items[i];
        let a = match field(item, "expression") {
            Some(je) => {
                let sp = span_of(je, li);
                let e = dec_expr(je, li);
                Arg { expr: e, span: sp }
            },
            None => Arg {
                expr: Expr::Other,
                span: Span { start_line: 0, start_col: 0, end_line: 0, end_col: 0 },
            },
        };
        out.push(a);
        i += 1;
    }
    out
}

fn dec_quasis(items: &Vec<JsonValue>) -> (r: Vec<String>)
    ensures
        rel_quasis(jv_view_list(items@), r@),
{
    let mut out: Vec<String> = Vec::new();
    let mut i: usize = 0;
    proof {
        crate::json::lemma_jv_view_list_len(items@);
    }
    while i < items.len()
        invariant
            i <= items@.len(),
            jv_view_list(items@).len() == items@.len(),
            out@.len() == i,
            forall|m: int|
                0 <= m < i ==> match sp_str_field(jv_view_list(items@)[m], "raw"@) {
                    Some(s) => (#[trigger] out@[m])@ == s,
                    None => out@[m]@ == Seq::<char>::empty(),
                },
        decreases items@.len() - i,
    {
        proof {
            lemma_jv_view_list_index(items@, i as int);
        }
        let q = match str_field(&items[i], "raw") {
            Some(s) => s,
            None => String::new(),
        };
        out.push(q);
        i += 1;
    }
    out
}

fn dec_array_elems(items: &Vec<JsonValue>, li: &LineIndex) -> (r: Vec<Expr>)
    requires
        li.wf(),
    ensures
        rel_array_elems(jv_view_list(items@), li.chars@, li.base, r@),
    decreases *items, 0int,
{
    let mut out: Vec<Expr> = Vec::new();
    let mut i: usize = 0;
    let ghost js = jv_view_list(items@);
    proof {
        crate::json::lemma_jv_view_list_len(items@);
        assert(js.take(0) =~= Seq::<SJson>::empty());
        lemma_non_null_empty();
    }
    while i < items.len()
        invariant
            li.wf(),
            i <= items@.len(),
            js == jv_view_list(items@),
            js.len() == items@.len(),
            non_null_elems(js.take(i as int)).len() == out@.len(),
            forall|m: int|
                0 <= m < out@.len() ==> rel_arg_expr(
                    non_null_elems(js.take(i as int))[m],
                    li.chars@,
                    li.base,
                    #[trigger] out@[m],
                ),
        decreases items@.len() - i,
    {
        proof {
            lemma_jv_view_list_index(items@, i as int);
            lemma_non_null_push(js.take(i as int), js[i as int]);
            assert(js.take(i as int).push(js[i as int]) =~= js.take(i as int + 1));
            assert(decreases_to!(*items => items@[i as int]));
        }
        let item = &items[i];
        let skip = match item {
            JsonValue::Null => true,
            _ => false,
        };
        if skip {
            proof {
                assert(js[i as int] is Null);
            }
        } else {
            proof {
                assert(!(js[i as int] is Null));
            }
            let e = match field(item, "expression") {
                Some(je) => dec_expr(je, li),
                None => Expr::Other,
            };
            proof {
                assert(rel_arg_expr(js[i as int], li.chars@, li.base, e));
            }
            out.push(e);
        }
        i += 1;
    }
    proof {
        assert(js.take(items@.len() as int) =~= js);
    }
    out
}

fn dec_object_parts(items: &Vec<JsonValue>, li: &LineIndex) -> (r: Vec<ObjectPart>)
    requires
        li.wf(),
    ensures
        rel_object_parts(jv_view_list(items@), li.chars@, li.base, r@),
    decreases *items, 0int,
{
    let mut out: Vec<ObjectPart> = Vec::new();
    let mut i: usize = 0;
    proof {
        crate::json::lemma_jv_view_list_len(items@);
    }
    while i < items.len()
        invariant
            li.wf(),
            i <= items@.len(),
            jv_view_list(items@).len() == items@.len(),
            out@.len() == i,
            forall|m: int|
                0 <= m < i ==> rel_object_part(jv_view_list(items@)[m], li.chars@, li.base, #[trigger] out@[m]),
        decreases items@.len() - i,
    {
        proof {
            lemma_jv_view_list_index(items@, i as int);
            assert(decreases_to!(*items => items@[i as int]));
        }
        let item = &items[i];
        let t = tag_of(item);
        let part = if str_is(&t, "KeyValueProperty") {
            match field(item, "value") {
                Some(jv) => ObjectPart::Value(dec_expr(jv, li)),
                None => ObjectPart::Other,
            }
        } else if str_is(&t, "SpreadElement") {
            match field(item, "arguments") {
                Some(jv) => ObjectPart::Spread(dec_expr(jv, li)),
                None => ObjectPart::Other,
            }
        } else {
            ObjectPart::Other
        };
        out.push(part);
        i += 1;
    }
    out
}

fn dec_attrs(items: &Vec<JsonValue>, li: &LineIndex) -> (r: Vec<Expr>)
    requires
        li.wf(),
    ensures
        rel_attrs(jv_view_list(items@), li.chars@, li.base, r@),
    decreases *items, 0int,
{
    let mut out: Vec<Expr> = Vec::new();
    let mut i: usize = 0;
    let ghost js = jv_view_list(items@);
    proof {
        crate::json::lemma_jv_view_list_len(items@);
        assert(js.take(0) =~= Seq::<SJson>::empty());
        lemma_attr_exprs_empty();
    }
    while i < items.len()
        invariant
            li.wf(),
            i <= items@.len(),
            js == jv_view_list(items@),
            js.len() == items@.len(),
            attr_exprs(js.take(i as int)).len() == out@.len(),
            forall|m: int|
                0 <= m < out@.len() ==> rel_expr(
                    attr_exprs(js.take(i as int))[m],
                    li.chars@,
                    li.base,
                    #[trigger] out@[m],
                ),
        decreases items@.len() - i,
    {
        proof {
            lemma_jv_view_list_index(items@, i as int);
            lemma_attr_exprs_push(js.take(i as int), js[i as int]);
            assert(js.take(i as int).push(js[i as int]) =~= js.take(i as int + 1));
            assert(decreases_to!(*items => items@[i as int]));
        }
        let item = &items[i];
        let t = tag_of(item);
        let ce: Option<&JsonValue> = if str_is(&t, "JSXAttribute") {
            match opt_field(item, "value") {
                Some(jv) => {
                    let vt = tag_of(jv);
                    if str_is(&vt, "JSXExpressionContainer") {
                        match field(jv, "expression") {
                            Some(je) => {
                                let et = tag_of(je);
                                if str_is(&et, "JSXEmptyExpression") {
                                    None
                                } else {
                                    Some(je)
                                }
                            },
                            None => None,
                        }
                    } else {
                        None
                    }
                },
                None => None,
            }
        } else {
            None
        };
        match ce {
            Some(je) => {
                proof {
                    assert(attr_container_expr(js[i as int]) == Some(je@));
                }
                let e = dec_expr(je, li);
                out.push(e);
            },
            None => {
                proof {
                    assert(attr_container_expr(js[i as int]) is None);
                }
            },
        }
        i += 1;
    }
    proof {
        assert(js.take(items@.len() as int) =~= js);
    }
    out
}

fn dec_block(v: &JsonValue, li: &LineIndex) -> (r: Block)
    requires
        li.wf(),
    ensures
        rel_block(v@, li.chars@, li.base, r),
    decreases *v, 0int,
{
    let stmts = match arr_field(v, "stmts") {
        Some(items) => dec_stmts(items, li),
        None => Vec::new(),
    };
    let sp = span_of(v, li);
    Block { stmts, start_line: sp.start_line, end_line: sp.end_line }
}

fn dec_fn_body(v: &JsonValue, li: &LineIndex) -> (r: Option<Block>)
    requires
        li.wf(),
    ensures
        rel_fn_body(sp_opt_field(v@, "body"@), li.chars@, li.base, r),
    decreases *v, 0int,
{
    match opt_field(v, "body") {
        Some(jb) => {
            let t = tag_of(jb);
            if str_is(&t, "FunctionBody") {
                Some(dec_block(jb, li))
            } else {
                None
            }
        },
        None => None,
    }
}

fn dec_pat(v: &JsonValue) -> (r: Pat)
    ensures
        rel_pat(Some(v@), r),
    decreases *v, 1int,
{
    let t = tag_of(v);
    if str_is(&t, "Identifier") {
        match str_field(v, "value") {
            Some(s) => Pat::Ident { name: s },
            None => Pat::Other,
        }
    } else if str_is(&t, "ObjectPattern") {
        let props = match arr_field(v, "properties") {
            Some(items) => dec_pat_props(items),
            None => Vec::new(),
        };
        Pat::Object { props }
    } else if str_is(&t, "ArrayPattern") {
        let elems = match arr_field(v, "elements") {
            Some(items) => dec_pats(items),
            None => Vec::new(),
        };
        Pat::Array { elems }
    } else {
        Pat::Other
    }
}

fn dec_pats(items: &Vec<JsonValue>) -> (r: Vec<Pat>)
    ensures
        rel_pat_elems(jv_view_list(items@), r@),
    decreases *items, 0int,
{
    let mut out: Vec<Pat> = Vec::new();
    let mut i: usize = 0;
    proof {
        crate::json::lemma_jv_view_list_len(items@);
    }
    while i < items.len()
        invariant
            i <= items@.len(),
            jv_view_list(items@).len() == items@.len(),
            out@.len() == i,
            forall|m: int|
                0 <= m < i ==> {
                    if jv_view_list(items@)[m] is Null {
                        (#[trigger] out@[m]) is Missing
                    } else {
                        rel_pat(Some(jv_view_list(items@)[m]), out@[m])
                    }
                },
        decreases items@.len() - i,
    {
        proof {
            lemma_jv_view_list_index(items@, i as int);
            assert(decreases_to!(*items => items@[i as int]));
        }
        let item = &items[i];
        let isnull = match item {
            JsonValue::Null => true,
            _ => false,
        };
        if isnull {
            out.push(Pat::Missing);
        } else {
            proof {
                assert(!(jv_view(items@[i as int]) is Null));
            }
            let p = dec_pat(item);
            out.push(p);
        }
        i += 1;
    }
    out
}

fn dec_pat_props(items: &Vec<JsonValue>) -> (r: Vec<PatProp>)
    ensures
        rel_pat_props(jv_view_list(items@), r@),
    decreases *items, 0int,
{
    let mut out: Vec<PatProp> = Vec::new();
    let mut i: usize = 0;
    proof {
        crate::json::lemma_jv_view_list_len(items@);
    }
    while i < items.len()
        invariant
            i <= items@.len(),
            jv_view_list(items@).len() == items@.len(),
            out@.len() == i,
            forall|m: int|
                0 <= m < i ==> rel_pat_prop(jv_view_list(items@)[m], #[trigger] out@[m]),
        decreases items@.len() - i,
    {
        proof {
            lemma_jv_view_list_index(items@, i as int);
            assert(decreases_to!(*items => items@[i as int]));
        }
        let item = &items[i];
        let t = tag_of(item);
        let p = if str_is(&t, "AssignmentPatternProperty") {
            match field(item, "key") {
                Some(jk) => match str_field(jk, "value") {
                    Some(s) => PatProp::Shorthand { key: s },
                    None => PatProp::Rest,
                },
                None => PatProp::Rest,
            }
        } else if str_is(&t, "KeyValuePatternProperty") {
            match field(item, "value") {
                Some(jv) => {
                    let key = match field(item, "key") {
                        Some(jk) => {
                            let kt = tag_of(jk);
                            if str_is(&kt, "Identifier") {
                                str_field(jk, "value")
                            } else {
                                None
                            }
                        },
                        None => None,
                    };
                    let value = dec_pat(jv);
                    PatProp::KeyValue { key, value: Box::new(value) }
                },
                None => PatProp::Rest,
            }
        } else {
            PatProp::Rest
        };
        out.push(p);
        i += 1;
    }
    out
}

fn dec_var(v: &JsonValue, li: &LineIndex) -> (r: VarDecl)
    requires
        li.wf(),
    ensures
        rel_var_decl(v@, li.chars@, li.base, r),
    decreases *v, 0int,
{
    let is_const = match str_field(v, "kind") {
        Some(k) => str_is(&k, "const"),
        None => false,
    };
    let mut decls: Vec<VarDeclarator> = Vec::new();
    match arr_field(v, "declarations") {
        Some(items) => {
            let mut i: usize = 0;
            proof {
                crate::json::lemma_jv_view_list_len(items@);
            }
            while i < items.len()
                invariant
                    li.wf(),
                    i <= items@.len(),
                    decreases_to!(*v => *items),
                    jv_view_list(items@).len() == items@.len(),
                    decls@.len() == i,
                    forall|m: int|
                        0 <= m < i ==> rel_declarator(
                            jv_view_list(items@)[m],
                            li.chars@,
                            li.base,
                            #[trigger] decls@[m],
                        ),
                decreases items@.len() - i,
            {
                proof {
                    lemma_jv_view_list_index(items@, i as int);
                    assert(decreases_to!(*items => items@[i as int]));
                }
                let item = &items[i];
                let name = match field(item, "id") {
                    Some(jp) => {
                        proof {
                            assert(decreases_to!(*items => *jp));
                            assert(decreases_to!(*v => *jp));
                        }
                        dec_pat(jp)
                    },
                    None => Pat::Other,
                };
                let init = match opt_field(item, "init") {
                    Some(je) => {
                        proof {
                            assert(decreases_to!(*items => *je));
                            assert(decreases_to!(*v => *je));
                        }
                        Some(Box::new(dec_expr(je, li)))
                    },
                    None => None,
                };
                decls.push(VarDeclarator { name, init });
                i += 1;
            }
        },
        None => {},
    }
    VarDecl { is_const, decls }
}

fn dec_stmts(items: &Vec<JsonValue>, li: &LineIndex) -> (r: Vec<Stmt>)
    requires
        li.wf(),
    ensures
        rel_stmts(jv_view_list(items@), li.chars@, li.base, r@),
    decreases *items, 0int,
{
    let mut out: Vec<Stmt> = Vec::new();
    let mut i: usize = 0;
    proof {
        crate::json::lemma_jv_view_list_len(items@);
    }
    while i < items.len()
        invariant
            li.wf(),
            i <= items@.len(),
            jv_view_list(items@).len() == items@.len(),
            out@.len() == i,
            forall|m: int|
                0 <= m < i ==> rel_stmt(jv_view_list(items@)[m], li.chars@, li.base, #[trigger] out@[m]),
        decreases items@.len() - i,
    {
        proof {
            lemma_jv_view_list_index(items@, i as int);
            assert(decreases_to!(*items => items@[i as int]));
        }
        let s = dec_stmt(&items[i], li);
        out.push(s);
        i += 1;
    }
    out
}

/// The statements of the block held in field `key`, empty when absent.
fn dec_block_stmts_field(v: &JsonValue, key: &str, li: &LineIndex) -> (r: Vec<Stmt>)
    requires
        li.wf(),
    ensures
        rel_stmts(
            match sp_field(v@, key@) {
                Some(jb) => sp_arr_field(jb, "stmts"@),
                None => Seq::empty(),
            },
            li.chars@,
            li.base,
            r@,
        ),
    decreases *v, 1int,
{
    match field(v, key) {
        Some(jb) => match arr_field(jb, "stmts") {
            Some(items) => dec_stmts(items, li),
            None => Vec::new(),
        },
        None => Vec::new(),
    }
}

fn dec_cases(items: &Vec<JsonValue>, li: &LineIndex) -> (r: Vec<SwitchCase>)
    requires
        li.wf(),
    ensures
        rel_cases(jv_view_list(items@), li.chars@, li.base, r@),
    decreases *items, 0int,
{
    let mut out: Vec<SwitchCase> = Vec::new();
    let mut i: usize = 0;
    proof {
        crate::json::lemma_jv_view_list_len(items@);
    }
    while i < items.len()
        invariant
            li.wf(),
            i <= items@.len(),
            jv_view_list(items@).len() == items@.len(),
            out@.len() == i,
            forall|m: int|
                0 <= m < i ==> rel_case(jv_view_list(items@)[m], li.chars@, li.base, #[trigger] out@[m]),
        decreases items@.len() - i,
    {
        proof {
            lemma_jv_view_list_index(items@, i as int);
            assert(decreases_to!(*items => items@[i as int]));
        }
        let item = &items[i];
        let test = match opt_field(item, "test") {
            Some(jt) => Some(Box::new(dec_expr(jt, li))),
            None => None,
        };
        let cons = match arr_field(item, "consequent") {
            Some(cs) => dec_stmts(cs, li),
            None => Vec::new(),
        };
        out.push(SwitchCase { test, cons });
        i += 1;
    }
    out
}

#[verifier::rlimit(60)]
fn dec_stmt(v: &JsonValue, li: &LineIndex) -> (r: Stmt)
    requires
        li.wf(),
    ensures
        rel_stmt(v@, li.chars@, li.base, r),
    decreases *v, 2int,
{
    let t = tag_of(v);
    if str_is(&t, "ExpressionStatement") {
        match field(v, "expression") {
            Some(je) => Stmt::Expr { expr: Box::new(dec_expr(je, li)) },
            None => Stmt::Other,
        }
    } else if str_is(&t, "VariableDeclaration") {
        Stmt::Decl(Decl::Var(dec_var(v, li)))
    } else if str_is(&t, "FunctionDeclaration") {
        Stmt::Decl(Decl::Func { body: dec_fn_body(v, li) })
    } else if str_is(&t, "ReturnStatement") {
        let arg = match opt_field(v, "argument") {
            Some(ja) => Some(Box::new(dec_expr(ja, li))),
            None => None,
        };
        proof {
            assert(rel_opt_expr(sp_opt_field(v@, "argument"@), li.chars@, li.base, arg));
        }
        Stmt::Return { arg }
    } else if str_is(&t, "BlockStatement") {
        let stmts = match arr_field(v, "stmts") {
            Some(items) => dec_stmts(items, li),
            None => Vec::new(),
        };
        proof {
            assert(rel_stmts(sp_arr_field(v@, "stmts"@), li.chars@, li.base, stmts@));
        }
        Stmt::Block { stmts }
    } else if str_is(&t, "IfStatement") {
        match (field(v, "test"), field(v, "consequent")) {
            (Some(jt), Some(jc)) => {
                let test = Box::new(dec_expr(jt, li));
                let cons = Box::new(dec_stmt(jc, li));
                let alt = match opt_field(v, "alternate") {
                    Some(ja) => Some(Box::new(dec_stmt(ja, li))),
                    None => None,
                };
                proof {
                    assert(rel_stmt_box(jc@, li.chars@, li.base, cons));
                    assert(rel_opt_stmt(sp_opt_field(v@, "alternate"@), li.chars@, li.base, alt));
                }
                Stmt::If { test, cons, alt }
            },
            _ => Stmt::Other,
        }
    } else if str_is(&t, "SwitchStatement") {
        match field(v, "discriminant") {
            Some(jd) => {
                let disc = Box::new(dec_expr(jd, li));
                let cases = match arr_field(v, "cases") {
                    Some(items) => dec_cases(items, li),
                    None => Vec::new(),
                };
                proof {
                    assert(rel_expr(jd@, li.chars@, li.base, *disc));
                    assert(rel_cases(sp_arr_field(v@, "cases"@), li.chars@, li.base, cases@));
                }
                Stmt::Switch { disc, cases }
            },
            None => Stmt::Other,
        }
    } else if str_is(&t, "ForStatement") {
        match field(v, "body") {
            Some(jb) => {
                let init = match opt_field(v, "init") {
                    Some(ji) => {
                        let it = tag_of(ji);
                        if str_is(&it, "VariableDeclaration") {
                            Some(ForInit::Var(dec_var(ji, li)))
                        } else {
                            Some(ForInit::Expr(Box::new(dec_expr(ji, li))))
                        }
                    },
                    None => None,
                };
                let test = match opt_field(v, "test") {
                    Some(jt) => Some(Box::new(dec_expr(jt, li))),
                    None => None,
                };
                let update = match opt_field(v, "update") {
                    Some(ju) => Some(Box::new(dec_expr(ju, li))),
                    None => None,
                };
                let body = Box::new(dec_stmt(jb, li));
                proof {
                    assert(rel_for_init(sp_opt_field(v@, "init"@), li.chars@, li.base, init));
                    assert(rel_opt_expr(sp_opt_field(v@, "test"@), li.chars@, li.base, test));
                    assert(rel_opt_expr(sp_opt_field(v@, "update"@), li.chars@, li.base, update));
                    assert(rel_stmt_box(jb@, li.chars@, li.base, body));
                }
                Stmt::For { init, test, update, body }
            },
            None => Stmt::Other,
        }
    } else if str_is(&t, "ForInStatement") || str_is(&t, "ForOfStatement") {
        match (field(v, "right"), field(v, "body")) {
            (Some(jr), Some(jb)) => {
                let left = match opt_field(v, "left") {
                    Some(jl) => {
                        let lt = tag_of(jl);
                        if str_is(&lt, "VariableDeclaration") {
                            Some(dec_var(jl, li))
                        } else {
                            None
                        }
                    },
                    None => None,
                };
                let right = Box::new(dec_expr(jr, li));
                let body = Box::new(dec_stmt(jb, li));
                proof {
                    assert(rel_for_left(sp_opt_field(v@, "left"@), li.chars@, li.base, left));
                    assert(rel_stmt_box(jb@, li.chars@, li.base, body));
                }
                Stmt::ForEach { left, right, body }
            },
            _ => Stmt::Other,
        }
    } else if str_is(&t, "WhileStatement") {
        match (field(v, "test"), field(v, "body")) {
            (Some(jt), Some(jb)) => {
                let test = Box::new(dec_expr(jt, li));
                let body = Box::new(dec_stmt(jb, li));
                proof {
                    assert(rel_stmt_box(jb@, li.chars@, li.base, body));
                }
                Stmt::While { test, body }
            },
            _ => Stmt::Other,
        }
    } else if str_is(&t, "DoWhileStatement") {
        match (field(v, "test"), field(v, "body")) {
            (Some(jt), Some(jb)) => {
                let body = Box::new(dec_stmt(jb, li));
                let test = Box::new(dec_expr(jt, li));
                proof {
                    assert(rel_stmt_box(jb@, li.chars@, li.base, body));
                }
                Stmt::DoWhile { body, test }
            },
            _ => Stmt::Other,
        }
    } else if str_is(&t, "TryStatement") {
        let block = dec_block_stmts_field(v, "block", li);
        let handler = match opt_field(v, "handler") {
            Some(jc) => Some(dec_block_stmts_field(jc, "body", li)),
            None => None,
        };
        let finalizer = match opt_field(v, "finalizer") {
            Some(jf) => {
                let ss = match arr_field(jf, "stmts") {
                    Some(items) => dec_stmts(items, li),
                    None => Vec::new(),
                };
                Some(ss)
            },
            None => None,
        };
        proof {
            assert(rel_catch(sp_opt_field(v@, "handler"@), li.chars@, li.base, handler));
            assert(rel_opt_block_stmts(sp_opt_field(v@, "finalizer"@), li.chars@, li.base, finalizer));
        }
        Stmt::Try { block, handler, finalizer }
    } else {
        Stmt::Other
    }
}

fn dec_children(items: &Vec<JsonValue>, li: &LineIndex) -> (r: Vec<JsxChild>)
    requires
        li.wf(),
    ensures
        rel_children(jv_view_list(items@), li.chars@, li.base, r@),
    decreases *items, 0int,
{
    let mut out: Vec<JsxChild> = Vec::new();
    let mut i: usize = 0;
    proof {
        crate::json::lemma_jv_view_list_len(items@);
    }
    while i < items.len()
        invariant
            li.wf(),
            i <= items@.len(),
            jv_view_list(items@).len() == items@.len(),
            out@.len() == i,
            forall|m: int|
                0 <= m < i ==> rel_jsx_child(jv_view_list(items@)[m], li.chars@, li.base, #[trigger] out@[m]),
        decreases items@.len() - i,
    {
        proof {
            lemma_jv_view_list_index(items@, i as int);
            assert(decreases_to!(*items => items@[i as int]));
        }
        let c = dec_jsx_child(&items[i], li);
        out.push(c);
        i += 1;
    }
    out
}

fn dec_jsx_child(v: &JsonValue, li: &LineIndex) -> (r: JsxChild)
    requires
        li.wf(),
    ensures
        rel_jsx_child(v@, li.chars@, li.base, r),
    decreases *v, 2int,
{
    let t = tag_of(v);
    if str_is(&t, "JSXText") {
        match str_field(v, "value") {
            Some(s) => {
                let sp = span_of(v, li);
                JsxChild::Text { value: s, span: sp }
            },
            None => JsxChild::Other,
        }
    } else if str_is(&t, "JSXExpressionContainer") {
        let sp = span_of(v, li);
        match field(v, "expression") {
            Some(je) => {
                let et = tag_of(je);
                if str_is(&et, "JSXEmptyExpression") {
                    JsxChild::Container { expr: None, span: sp, expr_span: sp }
                } else {
                    let esp = span_of(je, li);
                    JsxChild::Container {
                        expr: Some(Box::new(dec_expr(je, li))),
                        span: sp,
                        expr_span: esp,
                    }
                }
            },
            None => JsxChild::Container { expr: None, span: sp, expr_span: sp },
        }
    } else if str_is(&t, "JSXElement") {
        JsxChild::Elem(Box::new(dec_jsx_elem(v, li)))
    } else if str_is(&t, "JSXFragment") {
        let children = match arr_field(v, "children") {
            Some(items) => dec_children(items, li),
            None => Vec::new(),
        };
        JsxChild::Frag { children }
    } else {
        JsxChild::Other
    }
}

fn dec_jsx_elem(v: &JsonValue, li: &LineIndex) -> (r: JsxElem)
    requires
        li.wf(),
    ensures
        rel_jsx_elem(v@, li.chars@, li.base, r),
    decreases *v, 0int,
{
    let opening = field(v, "opening");
    let name = match opening {
        Some(o) => match field(o, "name") {
            Some(n) => dec_jsx_name(n, 64),
            None => String::new(),
        },
        None => String::new(),
    };
    let attrs = match opening {
        Some(o) => match arr_field(o, "attributes") {
            Some(items) => dec_attrs(items, li),
            None => Vec::new(),
        },
        None => Vec::new(),
    };
    let children = match arr_field(v, "children") {
        Some(items) => dec_children(items, li),
        None => Vec::new(),
    };
    proof {
        if opening is None {
            assert(sp_field(SJson::Null, "name"@) is None);
            assert(sp_arr_field(SJson::Null, "attributes"@) =~= Seq::<SJson>::empty());
        }
        lemma_attr_exprs_empty();
    }
    JsxElem { name, attrs, children }
}

#[verifier::rlimit(100)]
fn dec_expr(v: &JsonValue, li: &LineIndex) -> (e: Expr)
    requires
        li.wf(),
    ensures
        rel_expr(v@, li.chars@, li.base, e),
    decreases *v, 1int,
{
    let t = tag_of(v);
    if str_is(&t, "StringLiteral") {
        match str_field(v, "value") {
            Some(s) => Expr::StrLit { value: s },
            None => Expr::Other,
        }
    } else if str_is(&t, "TemplateLiteral") {
        let quasis = match arr_field(v, "quasis") {
            Some(items) => dec_quasis(items),
            None => Vec::new(),
        };
        let exprs = match arr_field(v, "expressions") {
            Some(items) => dec_exprs(items, li),
            None => Vec::new(),
        };
        proof {
            assert(rel_quasis(sp_arr_field(v@, "quasis"@), quasis@));
            assert(rel_exprs(sp_arr_field(v@, "expressions"@), li.chars@, li.base, exprs@));
        }
        Expr::Tpl { quasis, exprs }
    } else if str_is(&t, "Identifier") {
        match str_field(v, "value") {
            Some(s) => {
                let sp = span_of(v, li);
                Expr::Ident { name: s, line: sp.start_line }
            },
            None => Expr::Other,
        }
    } else if str_is(&t, "BinaryExpression") {
        match (field(v, "left"), field(v, "right")) {
            (Some(jl), Some(jr)) => {
                let isadd = match str_field(v, "operator") {
                    Some(op) => str_is(&op, "+"),
                    None => false,
                };
                let left = Box::new(dec_expr(jl, li));
                let right = Box::new(dec_expr(jr, li));
                if isadd {
                    Expr::Add { left, right }
                } else {
                    Expr::BinOther { left, right }
                }
            },
            _ => Expr::Other,
        }
    } else if str_is(&t, "ParenthesisExpression") || str_is(&t, "TsAsExpression") || str_is(
        &t,
        "TsSatisfiesExpression",
    ) || str_is(&t, "TsNonNullExpression") || str_is(&t, "TsConstAssertion") {
        match field(v, "expression") {
            Some(inner) => Expr::Wrap { inner: Box::new(dec_expr(inner, li)) },
            None => Expr::Other,
        }
    } else if str_is(&t, "CallExpression") {
        let callee = match field(v, "callee") {
            Some(jc) => {
                let ct = tag_of(jc);
                if str_is(&ct, "Super") || str_is(&ct, "Import") {
                    None
                } else {
                    Some(Box::new(dec_expr(jc, li)))
                }
            },
            None => None,
        };
        let args = match arr_field(v, "arguments") {
            Some(items) => dec_args(items, li),
            None => Vec::new(),
        };
        let sp = span_of(v, li);
        proof {
            assert(rel_callee(sp_field(v@, "callee"@), li.chars@, li.base, callee));
            assert(rel_args(sp_arr_field(v@, "arguments"@), li.chars@, li.base, args@));
        }
        Expr::Call { callee, args, line: sp.start_line }
    } else if str_is(&t, "MemberExpression") {
        match field(v, "object") {
            Some(jo) => {
                let obj = Box::new(dec_expr(jo, li));
                let (prop, computed) = match field(v, "property") {
                    Some(jp) => {
                        let pt = tag_of(jp);
                        if str_is(&pt, "Identifier") {
                            match str_field(jp, "value") {
                                Some(s) => (Some(s), None),
                                None => (None, None),
                            }
                        } else if str_is(&pt, "Computed") {
                            match field(jp, "expression") {
                                Some(je) => (None, Some(Box::new(dec_expr(je, li)))),
                                None => (None, None),
                            }
                        } else {
                            (None, None)
                        }
                    },
                    None => (None, None),
                };
                proof {
                    assert(rel_member_prop(sp_field(v@, "property"@), li.chars@, li.base, prop, computed));
                }
                Expr::Member { obj, prop, computed }
            },
            None => Expr::Other,
        }
    } else if str_is(&t, "ArrowFunctionExpression") {
        let sp = span_of(v, li);
        let body = match opt_field(v, "body") {
            Some(jb) => {
                let bt = tag_of(jb);
                if str_is(&bt, "FunctionBody") {
                    ArrowBody::Block(dec_block(jb, li))
                } else {
                    ArrowBody::Expr {
                        expr: Box::new(dec_expr(jb, li)),
                        start_line: sp.start_line,
                        end_line: sp.end_line,
                    }
                }
            },
            None => ArrowBody::Expr {
                expr: Box::new(Expr::Other),
                start_line: sp.start_line,
                end_line: sp.end_line,
            },
        };
        proof {
            assert(rel_arrow_body(sp_opt_field(v@, "body"@), li.chars@, li.base, sp_span_of(v@, li.chars@, li.base), body));
        }
        Expr::Arrow { body }
    } else if str_is(&t, "FunctionExpression") {
        Expr::Func { body: dec_fn_body(v, li) }
    } else if str_is(&t, "ConditionalExpression") {
        match (field(v, "test"), field(v, "consequent"), field(v, "alternate")) {
            (Some(jt), Some(jc), Some(ja)) => Expr::Cond {
                test: Box::new(dec_expr(jt, li)),
                cons: Box::new(dec_expr(jc, li)),
                alt: Box::new(dec_expr(ja, li)),
            },
            _ => Expr::Other,
        }
    } else if str_is(&t, "AssignmentExpression") {
        match field(v, "right") {
            Some(jr) => Expr::Assign { right: Box::new(dec_expr(jr, li)) },
            None => Expr::Other,
        }
    } else if str_is(&t, "ArrayExpression") {
        let elems = match arr_field(v, "elements") {
            Some(items) => dec_array_elems(items, li),
            None => Vec::new(),
        };
        proof {
            lemma_non_null_empty();
            assert(rel_array_elems(sp_arr_field(v@, "elements"@), li.chars@, li.base, elems@));
        }
        Expr::Array { elems }
    } else if str_is(&t, "ObjectExpression") {
        let parts = match arr_field(v, "properties") {
            Some(items) => dec_object_parts(items, li),
            None => Vec::new(),
        };
        proof {
            assert(rel_object_parts(sp_arr_field(v@, "properties"@), li.chars@, li.base, parts@));
        }
        Expr::Object { parts }
    } else if str_is(&t, "TaggedTemplateExpression") {
        match field(v, "tag") {
            Some(jt) => {
                let tag = Box::new(dec_expr(jt, li));
                let exprs = match field(v, "template") {
                    Some(tpl) => match arr_field(tpl, "expressions") {
                        Some(items) => dec_exprs(items, li),
                        None => Vec::new(),
                    },
                    None => Vec::new(),
                };
                proof {
                    assert(rel_exprs(
                        match sp_field(v@, "template"@) {
                            Some(tpl) => sp_arr_field(tpl, "expressions"@),
                            None => Seq::empty(),
                        },
                        li.chars@,
                        li.base,
                        exprs@,
                    ));
                }
                Expr::TaggedTpl { tag, exprs }
            },
            None => Expr::Other,
        }
    } else if str_is(&t, "SequenceExpression") {
        let exprs = match arr_field(v, "expressions") {
            Some(items) => dec_exprs(items, li),
            None => Vec::new(),
        };
        proof {
            assert(rel_exprs(sp_arr_field(v@, "expressions"@), li.chars@, li.base, exprs@));
        }
        Expr::Comma { exprs }
    } else if str_is(&t, "JSXElement") {
        Expr::Jsx(Box::new(dec_jsx_elem(v, li)))
    } else if str_is(&t, "JSXFragment") {
        let children = match arr_field(v, "children") {
            Some(items) => dec_children(items, li),
            None => Vec::new(),
        };
        proof {
            assert(rel_children(sp_arr_field(v@, "children"@), li.chars@, li.base, children@));
        }
        Expr::JsxFrag { children }
    } else if str_is(&t, "AwaitExpression") {
        match field(v, "argument") {
            Some(ja) => Expr::Await { inner: Box::new(dec_expr(ja, li)) },
            None => Expr::Other,
        }
    } else if str_is(&t, "YieldExpression") {
        let inner = match opt_field(v, "argument") {
            Some(ja) => Some(Box::new(dec_expr(ja, li))),
            None => None,
        };
        proof {
            assert(rel_opt_expr(sp_opt_field(v@, "argument"@), li.chars@, li.base, inner));
        }
        Expr::Yield { inner }
    } else if str_is(&t, "UnaryExpression") {
        match field(v, "argument") {
            Some(ja) => Expr::Unary { inner: Box::new(dec_expr(ja, li)) },
            None => Expr::Other,
        }
    } else {
        Expr::Other
    }
}

fn dec_decl(v: &JsonValue, li: &LineIndex) -> (r: Decl)
    requires
        li.wf(),
    ensures
        rel_decl(Some(v@), li.chars@, li.base, r),
    decreases *v, 1int,
{
    let t = tag_of(v);
    if str_is(&t, "VariableDeclaration") {
        Decl::Var(dec_var(v, li))
    } else if str_is(&t, "FunctionDeclaration") {
        Decl::Func { body: dec_fn_body(v, li) }
    } else {
        Decl::Other
    }
}

fn dec_module_item(v: &JsonValue, li: &LineIndex) -> (r: ModuleItem)
    requires
        li.wf(),
    ensures
        rel_module_item(v@, li.chars@, li.base, r),
    decreases *v, 3int,
{
    let t = tag_of(v);
    if str_is(&t, "ExportDeclaration") {
        match field(v, "declaration") {
            Some(jd) => ModuleItem::ExportDecl(dec_decl(jd, li)),
            None => {
                proof {
                    assert(rel_decl(None, li.chars@, li.base, Decl::Other));
                }
                ModuleItem::ExportDecl(Decl::Other)
            },
        }
    } else if str_is(&t, "ExportDefaultExpression") {
        match field(v, "expression") {
            Some(je) => ModuleItem::ExportDefaultExpr(Box::new(dec_expr(je, li))),
            None => ModuleItem::Other,
        }
    } else if str_is(&t, "ExportDefaultDeclaration") {
        match field(v, "decl") {
            Some(jd) => {
                let dt = tag_of(jd);
                if str_is(&dt, "FunctionExpression") {
                    ModuleItem::ExportDefaultFunc { body: dec_fn_body(jd, li) }
                } else {
                    ModuleItem::Other
                }
            },
            None => ModuleItem::Other,
        }
    } else if str_is(&t, "ImportDeclaration") || str_is(&t, "ExportNamedDeclaration") || str_is(
        &t,
        "ExportAll",
    ) || str_is(&t, "TsImportEqualsDeclaration") || str_is(&t, "TsExportAssignment") || str_is(
        &t,
        "TsNamespaceExportDeclaration",
    ) {
        ModuleItem::Other
    } else {
        ModuleItem::Stmt(dec_stmt(v, li))
    }
}

/// Decodes a whole serialized program.
pub fn dec_module(v: &JsonValue, li: &LineIndex) -> (r: Module)
    requires
        li.wf(),
    ensures
        rel_module(v@, li.chars@, li.base, r),
{
    let t = tag_of(v);
    if str_is(&t, "Module") {
        let mut out: Vec<ModuleItem> = Vec::new();
        match arr_field(v, "body") {
            Some(items) => {
                let mut i: usize = 0;
                proof {
                    crate::json::lemma_jv_view_list_len(items@);
                }
                while i < items.len()
                    invariant
                        li.wf(),
                        i <= items@.len(),
                        jv_view_list(items@).len() == items@.len(),
                        out@.len() == i,
                        forall|m: int|
                            0 <= m < i ==> rel_module_item(
                                jv_view_list(items@)[m],
                                li.chars@,
                                li.base,
                                #[trigger] out@[m],
                            ),
                    decreases items@.len() - i,
                {
                    proof {
                        lemma_jv_view_list_index(items@, i as int);
                    }
                    let item = dec_module_item(&items[i], li);
                    out.push(item);
                    i += 1;
                }
            },
            None => {},
        }
        Module { body: out }
    } else {
        Module { body: Vec::new() }
    }
}

} // verus!
