//! A JSON reader.
//!
//! The external parser hands the syntax tree over as JSON text, and locale
//! resources are JSON files; this module turns JSON text into a value tree.
//! The grammar accepted is standard JSON with two relaxations that cannot
//! occur in machine-produced input: digit runs may have leading zeros, and a
//! trailing comma before a closing bracket is tolerated.  Escaped code points
//! that are not scalar values (lone surrogates) contribute no character.
//! Numbers are kept as their raw text.

use vstd::prelude::*;

use crate::text::char_from_u32;
use crate::text::str_chars;

verus! {

/// Mathematical model of a JSON value.
pub enum SJson {
    Null,
    Bool(bool),
    Num(Seq<char>),
    Str(Seq<char>),
    Arr(Seq<SJson>),
    Obj(Seq<(Seq<char>, SJson)>),
}

/// A parsed JSON value.
pub enum JsonValue {
    Null,
    Bool(bool),
    Num(Vec<char>),
    Str(Vec<char>),
    Arr(Vec<JsonValue>),
    Obj(Vec<JsonMember>),
}

/// One key/value pair of a JSON object, in document order.
pub struct JsonMember {
    pub key: Vec<char>,
    pub value: JsonValue,
}

pub open spec fn jv_view(v: JsonValue) -> SJson
    decreases v,
{
    match v {
        JsonValue::Null => SJson::Null,
        JsonValue::Bool(b) => SJson::Bool(b),
        JsonValue::Num(r) => SJson::Num(r@),
        JsonValue::Str(s) => SJson::Str(s@),
        JsonValue::Arr(items) => SJson::Arr(jv_view_list(items@)),
        JsonValue::Obj(members) => SJson::Obj(jv_view_members(members@)),
    }
}

pub open spec fn jv_view_list(s: Seq<JsonValue>) -> Seq<SJson>
    decreases s,
{
    if s.len() == 0 {
        Seq::empty()
    } else {
        jv_view_list(s.drop_last()).push(jv_view(s.last()))
    }
}

pub open spec fn jv_view_members(s: Seq<JsonMember>) -> Seq<(Seq<char>, SJson)>
    decreases s,
{
    if s.len() == 0 {
        Seq::empty()
    } else {
        jv_view_members(s.drop_last()).push((s.last().key@, jv_view(s.last().value)))
    }
}

impl View for JsonValue {
    type V = SJson;

    open spec fn view(&self) -> SJson {
        jv_view(*self)
    }
}

pub broadcast proof fn lemma_jv_view_list_index(s: Seq<JsonValue>, i: int)
    requires
        0 <= i < s.len(),
    ensures
        #[trigger] jv_view_list(s)[i] == jv_view(s[i]),
        jv_view_list(s).len() == s.len(),
    decreases s,
{
    if s.len() > 0 {
        if i < s.len() - 1 {
            lemma_jv_view_list_index(s.drop_last(), i);
        } else {
            lemma_jv_view_list_len(s.drop_last());
        }
    }
}

pub broadcast proof fn lemma_jv_view_list_len(s: Seq<JsonValue>)
    ensures
        #[trigger] jv_view_list(s).len() == s.len(),
    decreases s,
{
    if s.len() > 0 {
        lemma_jv_view_list_len(s.drop_last());
    }
}

pub broadcast proof fn lemma_jv_view_members_index(s: Seq<JsonMember>, i: int)
    requires
        0 <= i < s.len(),
    ensures
        #[trigger] jv_view_members(s)[i] == (s[i].key@, jv_view(s[i].value)),
        jv_view_members(s).len() == s.len(),
    decreases s,
{
    if s.len() > 0 {
        if i < s.len() - 1 {
            lemma_jv_view_members_index(s.drop_last(), i);
        } else {
            lemma_jv_view_members_len(s.drop_last());
        }
    }
}

pub broadcast proof fn lemma_jv_view_members_len(s: Seq<JsonMember>)
    ensures
        #[trigger] jv_view_members(s).len() == s.len(),
    decreases s,
{
    if s.len() > 0 {
        lemma_jv_view_members_len(s.drop_last());
    }
}

/// The value of the first member with this key, if any.
pub open spec fn sp_get(ms: Seq<(Seq<char>, SJson)>, key: Seq<char>) -> Option<SJson>
    decreases ms,
{
    if ms.len() == 0 {
        None
    } else if ms.first().0 == key {
        Some(ms.first().1)
    } else {
        sp_get(ms.drop_first(), key)
    }
}

/// The value of field `key` of object `j`; `None` when `j` is no object or
/// has no such field.
pub open spec fn sp_field(j: SJson, key: Seq<char>) -> Option<SJson> {
    match j {
        SJson::Obj(ms) => sp_get(ms, key),
        _ => None,
    }
}

/// The string tag under the `type` field of a node, empty when absent.
pub open spec fn sp_tag(j: SJson) -> Seq<char> {
    match sp_field(j, "type"@) {
        Some(SJson::Str(s)) => s,
        _ => Seq::empty(),
    }
}

/// The string held by field `key` of object `j`.
pub open spec fn sp_str_field(j: SJson, key: Seq<char>) -> Option<Seq<char>> {
    match sp_field(j, key) {
        Some(SJson::Str(s)) => Some(s),
        _ => None,
    }
}

/// Index of the first member with this key.
pub fn obj_find(ms: &Vec<JsonMember>, key: &[char]) -> (r: Option<usize>)
    ensures
        match r {
            Some(i) => {
                &&& i < ms@.len()
                &&& sp_get(jv_view_members(ms@), key@) == Some(jv_view(ms@[i as int].value))
            },
            None => sp_get(jv_view_members(ms@), key@) is None,
        },
{
    let mut i: usize = 0;
    proof {
        assert(jv_view_members(ms@).skip(0) =~= jv_view_members(ms@));
    }
    while i < ms.len()
        invariant
            i <= ms@.len(),
            sp_get(jv_view_members(ms@), key@) == sp_get(
                jv_view_members(ms@).skip(i as int),
                key@,
            ),
        decreases ms@.len() - i,
    {
        proof {
            broadcast use lemma_jv_view_members_index;

            lemma_jv_view_members_len(ms@);
        }
        if eq_chars(ms[i].key.as_slice(), key) {
            proof {
                let v = jv_view_members(ms@);
                assert(v.skip(i as int).first() == v[i as int]);
                assert(sp_get(v.skip(i as int), key@) == Some(v[i as int].1));
            }
            return Some(i);
        }
        proof {
            let v = jv_view_members(ms@);
            assert(v.skip(i as int).first() == v[i as int]);
            assert(v.skip(i as int).drop_first() =~= v.skip(i as int + 1));
        }
        i = i + 1;
    }
    proof {
        lemma_jv_view_members_len(ms@);
        assert(jv_view_members(ms@).skip(i as int).len() == 0);
    }
    None
}

/// Character-for-character equality of two slices.
pub fn eq_chars(a: &[char], b: &[char]) -> (r: bool)
    ensures
        r == (a@ == b@),
{
    if a.len() != b.len() {
        proof {
            assert(a@.len() != b@.len());
        }
        return false;
    }
    let mut i: usize = 0;
    while i < a.len()
        invariant
            a@.len() == b@.len(),
            i <= a@.len(),
            forall|m: int| 0 <= m < i ==> a@[m] == b@[m],
        decreases a@.len() - i,
    {
        if a[i] != b[i] {
            return false;
        }
        i = i + 1;
    }
    proof {
        assert(a@ =~= b@);
    }
    true
}

pub open spec fn is_ws(c: char) -> bool {
    c == ' ' || c == '\n' || c == '\r' || c == '\t'
}

pub open spec fn is_digit(c: char) -> bool {
    '0' <= c && c <= '9'
}

/// Position after the run of whitespace starting at `i`.
pub open spec fn sp_ws(s: Seq<char>, i: int) -> int
    decreases s.len() - i,
{
    if 0 <= i < s.len() && is_ws(s[i]) {
        sp_ws(s, i + 1)
    } else {
        i
    }
}

/// Position after the run of digits starting at `i`.
pub open spec fn sp_digits(s: Seq<char>, i: int) -> int
    decreases s.len() - i,
{
    if 0 <= i < s.len() && is_digit(s[i]) {
        sp_digits(s, i + 1)
    } else {
        i
    }
}

pub open spec fn hex_val(c: char) -> Option<u32> {
    if '0' <= c && c <= '9' {
        Some((c as u32 - '0' as u32) as u32)
    } else if 'a' <= c && c <= 'f' {
        Some((c as u32 - 'a' as u32 + 10) as u32)
    } else if 'A' <= c && c <= 'F' {
        Some((c as u32 - 'A' as u32 + 10) as u32)
    } else {
        None
    }
}

pub open spec fn esc_char(c: char) -> Option<char> {
    if c == '"' {
        Some('"')
    } else if c == '\\' {
        Some('\\')
    } else if c == '/' {
        Some('/')
    } else if c == 'b' {
        Some('\u{0008}')
    } else if c == 'f' {
        Some('\u{000C}')
    } else if c == 'n' {
        Some('\n')
    } else if c == 'r' {
        Some('\r')
    } else if c == 't' {
        Some('\t')
    } else {
        None
    }
}

pub open spec fn valid_scalar(u: u32) -> bool {
    u < 0xD800 || (0xE000 <= u && u < 0x110000)
}

/// The character whose code point is `u`, for a valid scalar value `u`.
pub open spec fn char_of(u: u32) -> char {
    u as char
}

/// The characters contributed by the escape `\uXXXX` with code point `u`:
/// the character itself, or nothing for a non-scalar code point.
pub open spec fn unicode_escape_chars(u: u32) -> Seq<char> {
    if valid_scalar(u) {
        seq![char_of(u)]
    } else {
        Seq::empty()
    }
}

/// Value of the four hex digits at `i`, if they are hex digits in bounds.
pub open spec fn sp_hex4(s: Seq<char>, i: int) -> Option<u32> {
    if 0 <= i && i + 4 <= s.len() {
        match (hex_val(s[i]), hex_val(s[i + 1]), hex_val(s[i + 2]), hex_val(s[i + 3])) {
            (Some(a), Some(b), Some(c), Some(d)) => Some(
                ((a * 0x1000 + b * 0x100 + c * 0x10 + d) as u32),
            ),
            _ => None,
        }
    } else {
        None
    }
}

/// Scans a string body from `i` (just after the opening quote), with the
/// characters decoded so far in `acc`; returns the full decoded content and
/// the position after the closing quote.
pub open spec fn sp_str_body(s: Seq<char>, i: int, acc: Seq<char>) -> Option<(Seq<char>, int)>
    decreases s.len() - i,
{
    if i < 0 || i >= s.len() {
        None
    } else if s[i] == '"' {
        Some((acc, i + 1))
    } else if s[i] == '\\' {
        if i + 1 >= s.len() {
            None
        } else if s[i + 1] == 'u' {
            match sp_hex4(s, i + 2) {
                Some(u) => sp_str_body(s, i + 6, acc + unicode_escape_chars(u)),
                None => None,
            }
        } else {
            match esc_char(s[i + 1]) {
                Some(c) => sp_str_body(s, i + 2, acc.push(c)),
                None => None,
            }
        }
    } else {
        sp_str_body(s, i + 1, acc.push(s[i]))
    }
}

/// Parses the quoted string at `i`: decoded content and position after it.
pub open spec fn sp_string(s: Seq<char>, i: int) -> Option<(Seq<char>, int)> {
    if 0 <= i < s.len() && s[i] == '"' {
        sp_str_body(s, i + 1, Seq::empty())
    } else {
        None
    }
}

/// Position after the number starting at `i`, when one is there.
pub open spec fn sp_num_end(s: Seq<char>, i: int) -> Option<int> {
    let i1 = if 0 <= i < s.len() && s[i] == '-' {
        i + 1
    } else {
        i
    };
    if 0 <= i1 < s.len() && is_digit(s[i1]) {
        let i2 = sp_digits(s, i1);
        match sp_frac_end(s, i2) {
            Some(i3) => sp_exp_end(s, i3),
            None => None,
        }
    } else {
        None
    }
}

pub open spec fn sp_frac_end(s: Seq<char>, i: int) -> Option<int> {
    if 0 <= i < s.len() && s[i] == '.' {
        if i + 1 < s.len() && is_digit(s[i + 1]) {
            Some(sp_digits(s, i + 1))
        } else {
            None
        }
    } else {
        Some(i)
    }
}

pub open spec fn sp_exp_end(s: Seq<char>, i: int) -> Option<int> {
    if 0 <= i < s.len() && (s[i] == 'e' || s[i] == 'E') {
        let i1 = if i + 1 < s.len() && (s[i + 1] == '+' || s[i + 1] == '-') {
            i + 2
        } else {
            i + 1
        };
        if 0 <= i1 < s.len() && is_digit(s[i1]) {
            Some(sp_digits(s, i1))
        } else {
            None
        }
    } else {
        Some(i)
    }
}

/// True when `lit` occurs in `s` at `i`.
pub open spec fn sp_lit_at(s: Seq<char>, i: int, lit: Seq<char>) -> bool {
    0 <= i && i + lit.len() <= s.len() && s.subrange(i, i + lit.len()) == lit
}

/// Parses the JSON value at `i` (no leading whitespace); `fuel` bounds the
/// recursion and is in practice never exhausted when it starts at the input
/// length plus one, since nesting consumes input.
pub open spec fn sp_value(s: Seq<char>, i: int, fuel: nat) -> Option<(SJson, int)>
    decreases fuel,
{
    if fuel == 0 {
        None
    } else if i < 0 || i >= s.len() {
        None
    } else if s[i] == '{' {
        match sp_members(s, sp_ws(s, i + 1), (fuel - 1) as nat, Seq::empty()) {
            Some((ms, j)) => Some((SJson::Obj(ms), j)),
            None => None,
        }
    } else if s[i] == '[' {
        match sp_elems(s, sp_ws(s, i + 1), (fuel - 1) as nat, Seq::empty()) {
            Some((es, j)) => Some((SJson::Arr(es), j)),
            None => None,
        }
    } else if s[i] == '"' {
        match sp_string(s, i) {
            Some((content, j)) => Some((SJson::Str(content), j)),
            None => None,
        }
    } else if s[i] == 't' {
        if sp_lit_at(s, i, "true"@) {
            Some((SJson::Bool(true), i + 4))
        } else {
            None
        }
    } else if s[i] == 'f' {
        if sp_lit_at(s, i, "false"@) {
            Some((SJson::Bool(false), i + 5))
        } else {
            None
        }
    } else if s[i] == 'n' {
        if sp_lit_at(s, i, "null"@) {
            Some((SJson::Null, i + 4))
        } else {
            None
        }
    } else if s[i] == '-' || is_digit(s[i]) {
        match sp_num_end(s, i) {
            Some(j) => Some((SJson::Num(s.subrange(i, j)), j)),
            None => None,
        }
    } else {
        None
    }
}

/// Parses object members from `i` (just after `{` or a comma, whitespace
/// skipped), accumulating into `acc`; returns all members and the position
/// after the closing brace.
pub open spec fn sp_members(s: Seq<char>, i: int, fuel: nat, acc: Seq<(Seq<char>, SJson)>) -> Option<
    (Seq<(Seq<char>, SJson)>, int),
>
    decreases fuel,
{
    if fuel == 0 {
        None
    } else if 0 <= i < s.len() && s[i] == '}' {
        Some((acc, i + 1))
    } else {
        match sp_string(s, i) {
            Some((key, j)) => {
                let j1 = sp_ws(s, j);
                if 0 <= j1 < s.len() && s[j1] == ':' {
                    match sp_value(s, sp_ws(s, j1 + 1), (fuel - 1) as nat) {
                        Some((v, k)) => {
                            let k1 = sp_ws(s, k);
                            if 0 <= k1 < s.len() && s[k1] == ',' {
                                sp_members(
                                    s,
                                    sp_ws(s, k1 + 1),
                                    (fuel - 1) as nat,
                                    acc.push((key, v)),
                                )
                            } else if 0 <= k1 < s.len() && s[k1] == '}' {
                                Some((acc.push((key, v)), k1 + 1))
                            } else {
                                None
                            }
                        },
                        None => None,
                    }
                } else {
                    None
                }
            },
            None => None,
        }
    }
}

/// Parses array elements from `i`, accumulating into `acc`.
pub open spec fn sp_elems(s: Seq<char>, i: int, fuel: nat, acc: Seq<SJson>) -> Option<
    (Seq<SJson>, int),
>
    decreases fuel,
{
    if fuel == 0 {
        None
    } else if 0 <= i < s.len() && s[i] == ']' {
        Some((acc, i + 1))
    } else {
        match sp_value(s, i, (fuel - 1) as nat) {
            Some((v, k)) => {
                let k1 = sp_ws(s, k);
                if 0 <= k1 < s.len() && s[k1] == ',' {
                    sp_elems(s, sp_ws(s, k1 + 1), (fuel - 1) as nat, acc.push(v))
                } else if 0 <= k1 < s.len() && s[k1] == ']' {
                    Some((acc.push(v), k1 + 1))
                } else {
                    None
                }
            },
            None => None,
        }
    }
}

/// The JSON value denoted by the whole text, if it parses.  A text as long
/// as the whole address space is rejected, a bound the machine forces.
pub open spec fn sp_json(s: Seq<char>) -> Option<SJson> {
    if s.len() >= usize::MAX {
        None
    } else {
        sp_json_unbounded(s)
    }
}

pub open spec fn sp_json_unbounded(s: Seq<char>) -> Option<SJson> {
    match sp_value(s, sp_ws(s, 0), (s.len() + 1) as nat) {
        Some((v, j)) => {
            if sp_ws(s, j) == s.len() {
                Some(v)
            } else {
                None
            }
        },
        None => None,
    }
}

fn p_ws(s: &[char], i: usize) -> (r: usize)
    requires
        i <= s.len(),
    ensures
        r == sp_ws(s@, i as int),
        i <= r <= s.len(),
    decreases s.len() - i,
{
    if i < s.len() && (s[i] == ' ' || s[i] == '\n' || s[i] == '\r' || s[i] == '\t') {
        p_ws(s, i + 1)
    } else {
        i
    }
}

fn p_digits(s: &[char], i: usize) -> (r: usize)
    requires
        i <= s.len(),
    ensures
        r == sp_digits(s@, i as int),
        i <= r <= s.len(),
    decreases s.len() - i,
{
    if i < s.len() && '0' <= s[i] && s[i] <= '9' {
        p_digits(s, i + 1)
    } else {
        i
    }
}

fn p_hex(c: char) -> (r: Option<u32>)
    ensures
        r == hex_val(c),
{
    if '0' <= c && c <= '9' {
        Some(c as u32 - '0' as u32)
    } else if 'a' <= c && c <= 'f' {
        Some(c as u32 - 'a' as u32 + 10)
    } else if 'A' <= c && c <= 'F' {
        Some(c as u32 - 'A' as u32 + 10)
    } else {
        None
    }
}

#[verifier::rlimit(30)]
fn p_str_body(s: &[char], i: usize, acc: Vec<char>) -> (r: Option<(Vec<char>, usize)>)
    requires
        i <= s.len(),
    ensures
        match r {
            Some((content, j)) => {
                &&& sp_str_body(s@, i as int, acc@) == Some((content@, j as int))
                &&& j <= s.len()
            },
            None => sp_str_body(s@, i as int, acc@) is None,
        },
    decreases s.len() - i,
{
    let mut acc = acc;
    if i >= s.len() {
        None
    } else if s[i] == '"' {
        Some((acc, i + 1))
    } else if s[i] == '\\' {
        if i + 1 >= s.len() {
            None
        } else if s[i + 1] == 'u' {
            if s.len() - i >= 6 {
                let a = p_hex(s[i + 2]);
                let b = p_hex(s[i + 3]);
                let c = p_hex(s[i + 4]);
                let d = p_hex(s[i + 5]);
                match (a, b, c, d) {
                    (Some(a), Some(b), Some(c), Some(d)) => {
                        let u: u32 = a * 0x1000 + b * 0x100 + c * 0x10 + d;
                        assert(sp_hex4(s@, i + 2) == Some(u));
                        match char_from_u32(u) {
                            Some(ch) => {
                                let ghost accv = acc@;
                                proof {
                                    vstd::utf8::char_u32_cast(ch, u);
                                    assert(ch == char_of(u));
                                }
                                acc.push(ch);
                                proof {
                                    assert(acc@ =~= accv + unicode_escape_chars(u));
                                }
                                p_str_body(s, i + 6, acc)
                            },
                            None => {
                                proof {
                                    assert(acc@ =~= acc@ + unicode_escape_chars(u));
                                }
                                p_str_body(s, i + 6, acc)
                            },
                        }
                    },
                    _ => {
                        assert(sp_hex4(s@, i + 2) is None);
                        None
                    },
                }
            } else {
                assert(sp_hex4(s@, i + 2) is None);
                None
            }
        } else {
            let e = s[i + 1];
            let dec: Option<char> = if e == '"' {
                Some('"')
            } else if e == '\\' {
                Some('\\')
            } else if e == '/' {
                Some('/')
            } else if e == 'b' {
                Some('\u{0008}')
            } else if e == 'f' {
                Some('\u{000C}')
            } else if e == 'n' {
                Some('\n')
            } else if e == 'r' {
                Some('\r')
            } else if e == 't' {
                Some('\t')
            } else {
                None
            };
            assert(dec == esc_char(e));
            match dec {
                Some(c) => {
                    acc.push(c);
                    p_str_body(s, i + 2, acc)
                },
                None => None,
            }
        }
    } else {
        let c = s[i];
        acc.push(c);
        p_str_body(s, i + 1, acc)
    }
}

fn p_string(s: &[char], i: usize) -> (r: Option<(Vec<char>, usize)>)
    requires
        i <= s.len(),
    ensures
        match r {
            Some((content, j)) => {
                &&& sp_string(s@, i as int) == Some((content@, j as int))
                &&& j <= s.len()
            },
            None => sp_string(s@, i as int) is None,
        },
{
    if i < s.len() && s[i] == '"' {
        p_str_body(s, i + 1, Vec::new())
    } else {
        None
    }
}

fn p_num_end(s: &[char], i: usize) -> (r: Option<usize>)
    requires
        i <= s.len(),
    ensures
        match r {
            Some(j) => sp_num_end(s@, i as int) == Some(j as int) && i <= j <= s.len(),
            None => sp_num_end(s@, i as int) is None,
        },
{
    let i1 = if i < s.len() && s[i] == '-' {
        i + 1
    } else {
        i
    };
    if i1 < s.len() && '0' <= s[i1] && s[i1] <= '9' {
        let i2 = p_digits(s, i1);
        // fraction
        let i3 = if i2 < s.len() && s[i2] == '.' {
            if i2 + 1 < s.len() && '0' <= s[i2 + 1] && s[i2 + 1] <= '9' {
                Some(p_digits(s, i2 + 1))
            } else {
                None
            }
        } else {
            Some(i2)
        };
        match i3 {
            Some(i3) => {
                assert(sp_frac_end(s@, i2 as int) == Some(i3 as int));
                if i3 < s.len() && (s[i3] == 'e' || s[i3] == 'E') {
                    let i4 = if i3 + 1 < s.len() && (s[i3 + 1] == '+' || s[i3 + 1] == '-') {
                        i3 + 2
                    } else {
                        i3 + 1
                    };
                    if i4 < s.len() && '0' <= s[i4] && s[i4] <= '9' {
                        Some(p_digits(s, i4))
                    } else {
                        None
                    }
                } else {
                    Some(i3)
                }
            },
            None => {
                assert(sp_frac_end(s@, i2 as int) is None);
                None
            },
        }
    } else {
        None
    }
}

fn slice_range(s: &[char], from: usize, to: usize) -> (r: Vec<char>)
    requires
        from <= to <= s.len(),
    ensures
        r@ == s@.subrange(from as int, to as int),
{
    let mut out: Vec<char> = Vec::new();
    let mut k = from;
    while k < to
        invariant
            from <= k <= to <= s.len(),
            out@ == s@.subrange(from as int, k as int),
        decreases to - k,
    {
        out.push(s[k]);
        proof {
            assert(out@ =~= s@.subrange(from as int, (k + 1) as int));
        }
        k += 1;
    }
    out
}

/// True when `lit` occurs in `s` at `i`.
fn p_lit_at(s: &[char], i: usize, lit: &[char]) -> (r: bool)
    requires
        i <= s.len(),
    ensures
        r == sp_lit_at(s@, i as int, lit@),
{
    if s.len() - i < lit.len() {
        return false;
    }
    let mut k: usize = 0;
    while k < lit.len()
        invariant
            i + lit.len() <= s.len(),
            k <= lit.len(),
            forall|m: int| 0 <= m < k ==> s@[i + m] == lit@[m],
        decreases lit.len() - k,
    {
        if s[i + k] != lit[k] {
            assert(s@.subrange(i as int, i + lit.len()) != lit@) by {
                assert(s@.subrange(i as int, i + lit.len())[k as int] != lit@[k as int]);
            }
            return false;
        }
        k += 1;
    }
    proof {
        assert(s@.subrange(i as int, i + lit.len()) =~= lit@);
    }
    true
}

fn p_value(s: &[char], i: usize, fuel: usize) -> (r: Option<(JsonValue, usize)>)
    requires
        i <= s.len(),
    ensures
        match r {
            Some((v, j)) => {
                &&& sp_value(s@, i as int, fuel as nat) == Some((v@, j as int))
                &&& j <= s.len()
            },
            None => sp_value(s@, i as int, fuel as nat) is None,
        },
    decreases fuel,
{
    if fuel == 0 {
        return None;
    }
    if i >= s.len() {
        return None;
    }
    let c = s[i];
    if c == '{' {
        let j0 = p_ws(s, i + 1);
        match p_members(s, j0, fuel - 1, Vec::new()) {
            Some((ms, j)) => Some((JsonValue::Obj(ms), j)),
            None => None,
        }
    } else if c == '[' {
        let j0 = p_ws(s, i + 1);
        match p_elems(s, j0, fuel - 1, Vec::new()) {
            Some((es, j)) => Some((JsonValue::Arr(es), j)),
            None => None,
        }
    } else if c == '"' {
        match p_string(s, i) {
            Some((content, j)) => Some((JsonValue::Str(content), j)),
            None => None,
        }
    } else if c == 't' {
        proof {
            reveal_strlit("true");
        }
        let lit = str_chars("true");
        if p_lit_at(s, i, lit.as_slice()) {
            Some((JsonValue::Bool(true), i + 4))
        } else {
            None
        }
    } else if c == 'f' {
        proof {
            reveal_strlit("false");
        }
        let lit = str_chars("false");
        if p_lit_at(s, i, lit.as_slice()) {
            Some((JsonValue::Bool(false), i + 5))
        } else {
            None
        }
    } else if c == 'n' {
        proof {
            reveal_strlit("null");
        }
        let lit = str_chars("null");
        if p_lit_at(s, i, lit.as_slice()) {
            Some((JsonValue::Null, i + 4))
        } else {
            None
        }
    } else if c == '-' || ('0' <= c && c <= '9') {
        match p_num_end(s, i) {
            Some(j) => Some((JsonValue::Num(slice_range(s, i, j)), j)),
            None => None,
        }
    } else {
        None
    }
}

fn p_members(s: &[char], i: usize, fuel: usize, acc: Vec<JsonMember>) -> (r: Option<
    (Vec<JsonMember>, usize),
>)
    requires
        i <= s.len(),
    ensures
        match r {
            Some((ms, j)) => {
                &&& sp_members(s@, i as int, fuel as nat, jv_view_members(acc@)) == Some(
                    (jv_view_members(ms@), j as int),
                )
                &&& j <= s.len()
            },
            None => sp_members(s@, i as int, fuel as nat, jv_view_members(acc@)) is None,
        },
    decreases fuel,
{
    let mut acc = acc;
    if fuel == 0 {
        return None;
    }
    if i < s.len() && s[i] == '}' {
        return Some((acc, i + 1));
    }
    match p_string(s, i) {
        Some((key, j)) => {
            let j1 = p_ws(s, j);
            if j1 < s.len() && s[j1] == ':' {
                let j2 = p_ws(s, j1 + 1);
                match p_value(s, j2, fuel - 1) {
                    Some((v, k)) => {
                        let k1 = p_ws(s, k);
                        let ghost old_accv = acc@;
                        let ghost keyv = key@;
                        let ghost vv = v@;
                        acc.push(JsonMember { key, value: v });
                        proof {
                            assert(acc@.drop_last() =~= old_accv);
                            assert(jv_view_members(acc@) == jv_view_members(old_accv).push(
                                (keyv, vv),
                            ));
                        }
                        if k1 < s.len() && s[k1] == ',' {
                            let k2 = p_ws(s, k1 + 1);
                            p_members(s, k2, fuel - 1, acc)
                        } else if k1 < s.len() && s[k1] == '}' {
                            Some((acc, k1 + 1))
                        } else {
                            None
                        }
                    },
                    None => None,
                }
            } else {
                None
            }
        },
        None => None,
    }
}

fn p_elems(s: &[char], i: usize, fuel: usize, acc: Vec<JsonValue>) -> (r: Option<
    (Vec<JsonValue>, usize),
>)
    requires
        i <= s.len(),
    ensures
        match r {
            Some((es, j)) => {
                &&& sp_elems(s@, i as int, fuel as nat, jv_view_list(acc@)) == Some(
                    (jv_view_list(es@), j as int),
                )
                &&& j <= s.len()
            },
            None => sp_elems(s@, i as int, fuel as nat, jv_view_list(acc@)) is None,
        },
    decreases fuel,
{
    let mut acc = acc;
    if fuel == 0 {
        return None;
    }
    if i < s.len() && s[i] == ']' {
        return Some((acc, i + 1));
    }
    match p_value(s, i, fuel - 1) {
        Some((v, k)) => {
            let k1 = p_ws(s, k);
            let ghost old_accv = acc@;
            let ghost vv = v@;
            acc.push(v);
            proof {
                assert(acc@.drop_last() =~= old_accv);
                assert(jv_view_list(acc@) == jv_view_list(old_accv).push(vv));
            }
            if k1 < s.len() && s[k1] == ',' {
                let k2 = p_ws(s, k1 + 1);
                p_elems(s, k2, fuel - 1, acc)
            } else if k1 < s.len() && s[k1] == ']' {
                Some((acc, k1 + 1))
            } else {
                None
            }
        },
        None => None,
    }
}

/// Parses a whole JSON document, given as its characters.
pub fn parse_json(s: &[char]) -> (r: Option<JsonValue>)
    ensures
        match r {
            Some(v) => sp_json(s@) == Some(v@),
            None => sp_json(s@) is None,
        },
{
    if s.len() >= usize::MAX {
        return None;
    }
    let i = p_ws(s, 0);
    match p_value(s, i, s.len() + 1) {
        Some((v, j)) => {
            let k = p_ws(s, j);
            if k == s.len() {
                Some(v)
            } else {
                None
            }
        },
        None => None,
    }
}

} // verus!
