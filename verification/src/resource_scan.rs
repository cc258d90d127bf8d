//! Key extraction from a locale resource file.
//!
//! A strict JSON scanner walks the resource text, tracking the line and
//! column of every object key, and emits one leaf record per scalar value
//! (string, number, boolean or null) reachable through objects alone: values
//! inside arrays are not keyed.  The leaf's position is its own key's.  Each
//! leaf then becomes a usage record whose raw text is the dot-joined key
//! path; under `is_root`, the first path segment is the namespace, otherwise
//! the caller supplies it.  Text that is not a JSON object fails with a
//! distinguishable error.

use vstd::prelude::*;

use crate::json::char_of;
use crate::json::esc_char;
use crate::json::hex_val;
use crate::json::is_digit;
use crate::json::is_ws;
use crate::json::unicode_escape_chars;
use crate::json::valid_scalar;
use crate::parse::ParseError;
use crate::scan::Range;
use crate::scan::SScanItem;
use crate::scan::ScanItem;
use crate::scan::si_view;
use crate::scan::si_views;
use crate::text::char_from_u32;
use crate::text::chars_to_string;
use crate::text::push_char;
use crate::text::string_chars;

verus! {

/// Mathematical model of one scalar leaf: its key path and the position of
/// its innermost key.
pub struct SLeaf {
    pub path: Seq<Seq<char>>,
    pub lnum: int,
    pub col: int,
    pub end_col: int,
}

/// A scanner position: index, 0-indexed line, 0-indexed column.
pub struct Pos {
    pub i: int,
    pub line: int,
    pub col: int,
}

/// The position after one character.
pub open spec fn padv(p: Pos, c: char) -> Pos {
    if c == '\n' {
        Pos { i: p.i + 1, line: p.line + 1, col: 0 }
    } else {
        Pos { i: p.i + 1, line: p.line, col: p.col + 1 }
    }
}

/// The position after the whitespace run at `p`.
pub open spec fn rws(s: Seq<char>, p: Pos) -> Pos
    decreases s.len() - p.i,
{
    if 0 <= p.i < s.len() && is_ws(s[p.i]) {
        rws(s, padv(p, s[p.i]))
    } else {
        p
    }
}

/// Scans a string body from just after the opening quote; `acc` holds the
/// decoded content so far.  Yields the content and the position after the
/// closing quote.
pub open spec fn rstr_body(s: Seq<char>, p: Pos, acc: Seq<char>) -> Option<(Seq<char>, Pos)>
    decreases s.len() - p.i,
{
    if p.i < 0 || p.i >= s.len() {
        None
    } else if s[p.i] == '"' {
        Some((acc, padv(p, '"')))
    } else if s[p.i] == '\\' {
        let p1 = padv(p, '\\');
        if p1.i >= s.len() {
            None
        } else if s[p1.i] == 'u' {
            let p2 = padv(p1, 'u');
            if p2.i + 4 <= s.len() {
                match (
                    hex_val(s[p2.i]),
                    hex_val(s[p2.i + 1]),
                    hex_val(s[p2.i + 2]),
                    hex_val(s[p2.i + 3]),
                ) {
                    (Some(a), Some(b), Some(c), Some(d)) => {
                        let u = (a * 0x1000 + b * 0x100 + c * 0x10 + d) as u32;
                        let p3 = padv(padv(padv(padv(p2, s[p2.i]), s[p2.i + 1]), s[p2.i + 2]),
                            s[p2.i + 3]);
                        rstr_body(s, p3, acc + unicode_escape_chars(u))
                    },
                    _ => None,
                }
            } else {
                None
            }
        } else {
            match esc_char(s[p1.i]) {
                Some(c) => rstr_body(s, padv(p1, s[p1.i]), acc.push(c)),
                None => None,
            }
        }
    } else {
        rstr_body(s, padv(p, s[p.i]), acc.push(s[p.i]))
    }
}

/// Scans the quoted string at `p`: the content, the quote's own position,
/// and the position after it.
pub open spec fn rstr(s: Seq<char>, p: Pos) -> Option<(Seq<char>, Pos)> {
    if 0 <= p.i < s.len() && s[p.i] == '"' {
        rstr_body(s, padv(p, '"'), Seq::empty())
    } else {
        None
    }
}

/// The position after the digit run at `p` (digits never break lines).
pub open spec fn rdigits(s: Seq<char>, p: Pos) -> Pos
    decreases s.len() - p.i,
{
    if 0 <= p.i < s.len() && is_digit(s[p.i]) {
        rdigits(s, padv(p, s[p.i]))
    } else {
        p
    }
}

/// Scans the strict JSON number at `p`: one zero or a nonzero-led digit
/// run, then an optional fraction and exponent, each demanding a digit.
pub open spec fn rnum(s: Seq<char>, p: Pos) -> Option<Pos> {
    let p1 = if 0 <= p.i < s.len() && s[p.i] == '-' {
        padv(p, '-')
    } else {
        p
    };
    if 0 <= p1.i < s.len() && s[p1.i] == '0' {
        rnum_frac(s, padv(p1, '0'))
    } else if 0 <= p1.i < s.len() && is_digit(s[p1.i]) {
        rnum_frac(s, rdigits(s, p1))
    } else {
        None
    }
}

pub open spec fn rnum_frac(s: Seq<char>, p: Pos) -> Option<Pos> {
    if 0 <= p.i < s.len() && s[p.i] == '.' {
        let p1 = padv(p, '.');
        if 0 <= p1.i < s.len() && is_digit(s[p1.i]) {
            rnum_exp(s, rdigits(s, p1))
        } else {
            None
        }
    } else {
        rnum_exp(s, p)
    }
}

pub open spec fn rnum_exp(s: Seq<char>, p: Pos) -> Option<Pos> {
    if 0 <= p.i < s.len() && (s[p.i] == 'e' || s[p.i] == 'E') {
        let p1 = padv(p, s[p.i]);
        let p2 = if 0 <= p1.i < s.len() && (s[p1.i] == '+' || s[p1.i] == '-') {
            padv(p1, s[p1.i])
        } else {
            p1
        };
        if 0 <= p2.i < s.len() && is_digit(s[p2.i]) {
            Some(rdigits(s, p2))
        } else {
            None
        }
    } else {
        Some(p)
    }
}

/// The position after the literal `lit` at `p`, when it is there (none of
/// these literals holds a newline).
pub open spec fn rlit(s: Seq<char>, p: Pos, lit: Seq<char>) -> Option<Pos> {
    if 0 <= p.i && p.i + lit.len() <= s.len() && s.subrange(p.i, p.i + lit.len()) == lit {
        Some(Pos { i: p.i + lit.len(), line: p.line, col: p.col + lit.len() })
    } else {
        None
    }
}

/// Scans the object at `p`, extending `path` per key; leaves are emitted
/// into `acc` unless `skip` holds (inside arrays).
pub open spec fn robj(
    s: Seq<char>,
    p: Pos,
    fuel: nat,
    path: Seq<Seq<char>>,
    skip: bool,
    acc: Seq<SLeaf>,
) -> Option<(Seq<SLeaf>, Pos)>
    decreases fuel,
{
    if fuel == 0 {
        None
    } else if !(0 <= p.i < s.len() && s[p.i] == '{') {
        None
    } else {
        let p1 = rws(s, padv(p, '{'));
        if 0 <= p1.i < s.len() && s[p1.i] == '}' {
            Some((acc, padv(p1, '}')))
        } else {
            rmembers(s, p1, (fuel - 1) as nat, path, skip, acc)
        }
    }
}

pub open spec fn rmembers(
    s: Seq<char>,
    p: Pos,
    fuel: nat,
    path: Seq<Seq<char>>,
    skip: bool,
    acc: Seq<SLeaf>,
) -> Option<(Seq<SLeaf>, Pos)>
    decreases fuel,
{
    if fuel == 0 {
        None
    } else {
        match rstr(s, p) {
            Some((key, pk)) => {
                let keypos = SLeaf { path: path.push(key), lnum: p.line, col: p.col, end_col: pk.col };
                let p1 = rws(s, pk);
                if 0 <= p1.i < s.len() && s[p1.i] == ':' {
                    let p2 = rws(s, padv(p1, ':'));
                    match rvalue(s, p2, (fuel - 1) as nat, path.push(key), skip, keypos, acc) {
                        Some((acc2, p3)) => {
                            let p4 = rws(s, p3);
                            if 0 <= p4.i < s.len() && s[p4.i] == ',' {
                                rmembers(
                                    s,
                                    rws(s, padv(p4, ',')),
                                    (fuel - 1) as nat,
                                    path,
                                    skip,
                                    acc2,
                                )
                            } else if 0 <= p4.i < s.len() && s[p4.i] == '}' {
                                Some((acc2, padv(p4, '}')))
                            } else {
                                None
                            }
                        },
                        None => None,
                    }
                } else {
                    None
                }
            },
            None => None,
        }
    }
}

/// Scans the value of a member whose key stands at `keypos`; a scalar emits
/// the leaf unless `skip` holds.
pub open spec fn rvalue(
    s: Seq<char>,
    p: Pos,
    fuel: nat,
    path: Seq<Seq<char>>,
    skip: bool,
    keypos: SLeaf,
    acc: Seq<SLeaf>,
) -> Option<(Seq<SLeaf>, Pos)>
    decreases fuel,
{
    if fuel == 0 {
        None
    } else if !(0 <= p.i < s.len()) {
        None
    } else {
        let emit = if skip {
            acc
        } else {
            acc.push(keypos)
        };
        if s[p.i] == '{' {
            robj(s, p, (fuel - 1) as nat, path, skip, acc)
        } else if s[p.i] == '[' {
            rarr(s, p, (fuel - 1) as nat, path, acc)
        } else if s[p.i] == '"' {
            match rstr(s, p) {
                Some((v, p1)) => Some((emit, p1)),
                None => None,
            }
        } else if s[p.i] == '-' || is_digit(s[p.i]) {
            match rnum(s, p) {
                Some(p1) => Some((emit, p1)),
                None => None,
            }
        } else if s[p.i] == 't' {
            match rlit(s, p, "true"@) {
                Some(p1) => Some((emit, p1)),
                None => None,
            }
        } else if s[p.i] == 'f' {
            match rlit(s, p, "false"@) {
                Some(p1) => Some((emit, p1)),
                None => None,
            }
        } else if s[p.i] == 'n' {
            match rlit(s, p, "null"@) {
                Some(p1) => Some((emit, p1)),
                None => None,
            }
        } else {
            None
        }
    }
}

/// Scans the array at `p`; nothing inside an array is keyed, and nested
/// objects are scanned with emission off.
pub open spec fn rarr(s: Seq<char>, p: Pos, fuel: nat, path: Seq<Seq<char>>, acc: Seq<SLeaf>)
    -> Option<(Seq<SLeaf>, Pos)>
    decreases fuel,
{
    if fuel == 0 {
        None
    } else if !(0 <= p.i < s.len() && s[p.i] == '[') {
        None
    } else {
        let p1 = rws(s, padv(p, '['));
        if 0 <= p1.i < s.len() && s[p1.i] == ']' {
            Some((acc, padv(p1, ']')))
        } else {
            relems(s, p1, (fuel - 1) as nat, path, acc)
        }
    }
}

pub open spec fn relems(s: Seq<char>, p: Pos, fuel: nat, path: Seq<Seq<char>>, acc: Seq<SLeaf>)
    -> Option<(Seq<SLeaf>, Pos)>
    decreases fuel,
{
    if fuel == 0 {
        None
    } else {
        match rarrvalue(s, p, (fuel - 1) as nat, path, acc) {
            Some((acc2, p1)) => {
                let p2 = rws(s, p1);
                if 0 <= p2.i < s.len() && s[p2.i] == ',' {
                    relems(s, rws(s, padv(p2, ',')), (fuel - 1) as nat, path, acc2)
                } else if 0 <= p2.i < s.len() && s[p2.i] == ']' {
                    Some((acc2, padv(p2, ']')))
                } else {
                    None
                }
            },
            None => None,
        }
    }
}

pub open spec fn rarrvalue(s: Seq<char>, p: Pos, fuel: nat, path: Seq<Seq<char>>, acc: Seq<SLeaf>)
    -> Option<(Seq<SLeaf>, Pos)>
    decreases fuel,
{
    if fuel == 0 {
        None
    } else if !(0 <= p.i < s.len()) {
        None
    } else if s[p.i] == '{' {
        robj(s, p, (fuel - 1) as nat, path, true, acc)
    } else if s[p.i] == '[' {
        rarr(s, p, (fuel - 1) as nat, path, acc)
    } else if s[p.i] == '"' {
        match rstr(s, p) {
            Some((v, p1)) => Some((acc, p1)),
            None => None,
        }
    } else if s[p.i] == '-' || is_digit(s[p.i]) {
        match rnum(s, p) {
            Some(p1) => Some((acc, p1)),
            None => None,
        }
    } else if s[p.i] == 't' {
        match rlit(s, p, "true"@) {
            Some(p1) => Some((acc, p1)),
            None => None,
        }
    } else if s[p.i] == 'f' {
        match rlit(s, p, "false"@) {
            Some(p1) => Some((acc, p1)),
            None => None,
        }
    } else if s[p.i] == 'n' {
        match rlit(s, p, "null"@) {
            Some(p1) => Some((acc, p1)),
            None => None,
        }
    } else {
        None
    }
}

/// The leaves of the resource text: a whole-text scan of one top-level
/// object, with nothing but whitespace after it.
pub open spec fn rparse(s: Seq<char>) -> Option<Seq<SLeaf>> {
    if s.len() >= 0x4000_0000 {
        None
    } else {
        let p0 = rws(s, Pos { i: 0, line: 0, col: 0 });
        match robj(s, p0, (s.len() + 1) as nat, Seq::empty(), false, Seq::empty()) {
            Some((leaves, p1)) => {
                if rws(s, p1).i == s.len() {
                    Some(leaves)
                } else {
                    None
                }
            },
            None => None,
        }
    }
}

/// The path segments joined with dots.
pub open spec fn sp_join(parts: Seq<Seq<char>>) -> Seq<char>
    decreases parts.len(),
{
    if parts.len() == 0 {
        Seq::empty()
    } else if parts.len() == 1 {
        parts.first()
    } else {
        parts.first() + "."@ + sp_join(parts.drop_first())
    }
}

/// The record a leaf becomes, or nothing when the range filter excludes it
/// or its path is unusable: under `is_root` the first segment names the
/// namespace and at least two segments are needed, with a nonempty joined
/// remainder; otherwise the caller's namespace applies to the whole path.
pub open spec fn sp_leaf_item(
    leaf: SLeaf,
    ns: Seq<char>,
    is_root: bool,
    range: Option<Range>,
) -> Option<SScanItem> {
    let in_range = match range {
        Some(r) => r.start_line <= leaf.lnum && leaf.lnum <= r.end_line,
        None => true,
    };
    if !in_range {
        None
    } else if is_root {
        if leaf.path.len() < 2 {
            None
        } else {
            let namespace = leaf.path.first();
            let raw = sp_join(leaf.path.drop_first());
            if raw.len() == 0 {
                None
            } else {
                Some(
                    SScanItem {
                        key: namespace + ":"@ + raw,
                        raw: raw,
                        namespace: namespace,
                        lnum: leaf.lnum as u32,
                        col: leaf.col as u32,
                        end_col: leaf.end_col as u32,
                        fallback: false,
                    },
                )
            }
        }
    } else {
        if leaf.path.len() == 0 {
            None
        } else {
            let raw = sp_join(leaf.path);
            Some(
                SScanItem {
                    key: ns + ":"@ + raw,
                    raw: raw,
                    namespace: ns,
                    lnum: leaf.lnum as u32,
                    col: leaf.col as u32,
                    end_col: leaf.end_col as u32,
                    fallback: false,
                },
            )
        }
    }
}

pub open spec fn sp_leaf_items(
    leaves: Seq<SLeaf>,
    ns: Seq<char>,
    is_root: bool,
    range: Option<Range>,
    acc: Seq<SScanItem>,
) -> Seq<SScanItem>
    decreases leaves.len(),
{
    if leaves.len() == 0 {
        acc
    } else {
        let acc2 = match sp_leaf_item(leaves.first(), ns, is_root, range) {
            Some(it) => acc.push(it),
            None => acc,
        };
        sp_leaf_items(leaves.drop_first(), ns, is_root, range, acc2)
    }
}

/// Message given when the resource text is not one valid JSON object.
pub open spec fn spec_resource_msg() -> Seq<char> {
    "resource file is not a valid JSON object"@
}

/// Everything `extract_resource` promises: the scan either fails with the
/// resource message, or yields exactly the leaves' records in document
/// order.
pub open spec fn resource_post(
    source: Seq<char>,
    ns: Seq<char>,
    is_root: bool,
    range: Option<Range>,
    r: Result<Seq<SScanItem>, Seq<char>>,
) -> bool {
    match rparse(source) {
        None => r == Err::<Seq<SScanItem>, Seq<char>>(spec_resource_msg()),
        Some(leaves) => r == Ok::<Seq<SScanItem>, Seq<char>>(
            sp_leaf_items(leaves, ns, is_root, range, Seq::empty()),
        ),
    }
}


// ---------------------------------------------------------------------------
// Exec scanner.
// ---------------------------------------------------------------------------

/// A scanner position in executable form.
#[derive(Clone, Copy)]
struct EPos {
    i: usize,
    line: u32,
    col: u32,
}

impl EPos {
    spec fn view(&self) -> Pos {
        Pos { i: self.i as int, line: self.line as int, col: self.col as int }
    }

    spec fn wf(&self, len: int) -> bool {
        self.i <= len && len < 0x4000_0000 && self.line <= self.i && self.col <= self.i
    }
}

fn eadv(p: EPos, c: char, Ghost(len): Ghost<int>) -> (r: EPos)
    requires
        p.wf(len),
        p.i < len,
    ensures
        r@ == padv(p@, c),
        r.wf(len),
{
    if c == '\n' {
        EPos { i: p.i + 1, line: p.line + 1, col: 0 }
    } else {
        EPos { i: p.i + 1, line: p.line, col: p.col + 1 }
    }
}

fn ews(cs: &Vec<char>, p: EPos) -> (r: EPos)
    requires
        p.wf(cs@.len() as int),
    ensures
        r@ == rws(cs@, p@),
        r.wf(cs@.len() as int),
    decreases cs@.len() - p.i,
{
    if p.i < cs.len() {
        let c = cs[p.i];
        if c == ' ' || c == '\n' || c == '\r' || c == '\t' {
            return ews(cs, eadv(p, c, Ghost(cs@.len() as int)));
        }
    }
    p
}

fn estr_body(cs: &Vec<char>, p: EPos, acc: Vec<char>) -> (r: Option<(Vec<char>, EPos)>)
    requires
        p.wf(cs@.len() as int),
    ensures
        match r {
            Some((content, q)) => rstr_body(cs@, p@, acc@) == Some((content@, q@)) && q.wf(
                cs@.len() as int,
            ),
            None => rstr_body(cs@, p@, acc@) is None,
        },
    decreases cs@.len() - p.i,
{
    let ghost len = cs@.len() as int;
    let mut acc = acc;
    if p.i >= cs.len() {
        return None;
    }
    let c = cs[p.i];
    if c == '"' {
        Some((acc, eadv(p, '"', Ghost(len))))
    } else if c == '\\' {
        let p1 = eadv(p, '\\', Ghost(len));
        if p1.i >= cs.len() {
            return None;
        }
        let e = cs[p1.i];
        if e == 'u' {
            let p2 = eadv(p1, 'u', Ghost(len));
            if cs.len() - p2.i >= 4 {
                let a = ehex(cs[p2.i]);
                let b = ehex(cs[p2.i + 1]);
                let c2 = ehex(cs[p2.i + 2]);
                let d = ehex(cs[p2.i + 3]);
                match (a, b, c2, d) {
                    (Some(a), Some(b), Some(c2), Some(d)) => {
                        let u: u32 = a * 0x1000 + b * 0x100 + c2 * 0x10 + d;
                        let p3 = eadv(
                            eadv(
                                eadv(eadv(p2, cs[p2.i], Ghost(len)), cs[p2.i + 1], Ghost(len)),
                                cs[p2.i + 2],
                                Ghost(len),
                            ),
                            cs[p2.i + 3],
                            Ghost(len),
                        );
                        let ghost acc0 = acc@;
                        match char_from_u32(u) {
                            Some(ch) => {
                                proof {
                                    vstd::utf8::char_u32_cast(ch, u);
                                    assert(ch == char_of(u));
                                }
                                acc.push(ch);
                                proof {
                                    assert(acc@ =~= acc0 + unicode_escape_chars(u));
                                }
                            },
                            None => {
                                proof {
                                    assert(acc@ =~= acc0 + unicode_escape_chars(u));
                                }
                            },
                        }
                        estr_body(cs, p3, acc)
                    },
                    _ => None,
                }
            } else {
                None
            }
        } else {
            let dec: Option<char> = if e == '"' {
                Some('"')
            } else if e == '\\' {
                Some('\\')
            } else if e == '/' {
                Some('/')
            } else if e == 'b' {
                Some('\u{0008}')
            } else if e == 'f' {
                Some('\u{000C}')
            } else if e == 'n' {
                Some('\n')
            } else if e == 'r' {
                Some('\r')
            } else if e == 't' {
                Some('\t')
            } else {
                None
            };
            assert(dec == esc_char(e));
            match dec {
                Some(d) => {
                    acc.push(d);
                    estr_body(cs, eadv(p1, e, Ghost(len)), acc)
                },
                None => None,
            }
        }
    } else {
        acc.push(c);
        estr_body(cs, eadv(p, c, Ghost(len)), acc)
    }
}

fn ehex(c: char) -> (r: Option<u32>)
    ensures
        r == hex_val(c),
{
    if '0' <= c && c <= '9' {
        Some(c as u32 - '0' as u32)
    } else if 'a' <= c && c <= 'f' {
        Some(c as u32 - 'a' as u32 + 10)
    } else if 'A' <= c && c <= 'F' {
        Some(c as u32 - 'A' as u32 + 10)
    } else {
        None
    }
}

fn estr(cs: &Vec<char>, p: EPos) -> (r: Option<(Vec<char>, EPos)>)
    requires
        p.wf(cs@.len() as int),
    ensures
        match r {
            Some((content, q)) => rstr(cs@, p@) == Some((content@, q@)) && q.wf(cs@.len() as int),
            None => rstr(cs@, p@) is None,
        },
{
    if p.i < cs.len() && cs[p.i] == '"' {
        estr_body(cs, eadv(p, '"', Ghost(cs@.len() as int)), Vec::new())
    } else {
        None
    }
}

fn edigits(cs: &Vec<char>, p: EPos) -> (r: EPos)
    requires
        p.wf(cs@.len() as int),
    ensures
        r@ == rdigits(cs@, p@),
        r.wf(cs@.len() as int),
    decreases cs@.len() - p.i,
{
    if p.i < cs.len() {
        let c = cs[p.i];
        if '0' <= c && c <= '9' {
            return edigits(cs, eadv(p, c, Ghost(cs@.len() as int)));
        }
    }
    p
}

fn enum_scan(cs: &Vec<char>, p: EPos) -> (r: Option<EPos>)
    requires
        p.wf(cs@.len() as int),
    ensures
        match r {
            Some(q) => rnum(cs@, p@) == Some(q@) && q.wf(cs@.len() as int),
            None => rnum(cs@, p@) is None,
        },
{
    let ghost len = cs@.len() as int;
    let p1 = if p.i < cs.len() && cs[p.i] == '-' {
        eadv(p, '-', Ghost(len))
    } else {
        p
    };
    if p1.i < cs.len() && cs[p1.i] == '0' {
        efrac(cs, eadv(p1, '0', Ghost(len)))
    } else if p1.i < cs.len() && '0' <= cs[p1.i] && cs[p1.i] <= '9' {
        efrac(cs, edigits(cs, p1))
    } else {
        None
    }
}

fn efrac(cs: &Vec<char>, p: EPos) -> (r: Option<EPos>)
    requires
        p.wf(cs@.len() as int),
    ensures
        match r {
            Some(q) => rnum_frac(cs@, p@) == Some(q@) && q.wf(cs@.len() as int),
            None => rnum_frac(cs@, p@) is None,
        },
{
    let ghost len = cs@.len() as int;
    if p.i < cs.len() && cs[p.i] == '.' {
        let p1 = eadv(p, '.', Ghost(len));
        if p1.i < cs.len() && '0' <= cs[p1.i] && cs[p1.i] <= '9' {
            eexp(cs, edigits(cs, p1))
        } else {
            None
        }
    } else {
        eexp(cs, p)
    }
}

fn eexp(cs: &Vec<char>, p: EPos) -> (r: Option<EPos>)
    requires
        p.wf(cs@.len() as int),
    ensures
        match r {
            Some(q) => rnum_exp(cs@, p@) == Some(q@) && q.wf(cs@.len() as int),
            None => rnum_exp(cs@, p@) is None,
        },
{
    let ghost len = cs@.len() as int;
    if p.i < cs.len() && (cs[p.i] == 'e' || cs[p.i] == 'E') {
        let p1 = eadv(p, cs[p.i], Ghost(len));
        let p2 = if p1.i < cs.len() && (cs[p1.i] == '+' || cs[p1.i] == '-') {
            eadv(p1, cs[p1.i], Ghost(len))
        } else {
            p1
        };
        if p2.i < cs.len() && '0' <= cs[p2.i] && cs[p2.i] <= '9' {
            Some(edigits(cs, p2))
        } else {
            None
        }
    } else {
        Some(p)
    }
}

fn elit(cs: &Vec<char>, p: EPos, lit: &str) -> (r: Option<EPos>)
    requires
        p.wf(cs@.len() as int),
    ensures
        match r {
            Some(q) => rlit(cs@, p@, lit@) == Some(q@) && q.wf(cs@.len() as int),
            None => rlit(cs@, p@, lit@) is None,
        },
{
    let lv = string_chars(&String::from_str(lit));
    if cs.len() - p.i < lv.len() {
        proof {
            assert(rlit(cs@, p@, lit@) is None);
        }
        return None;
    }
    let mut k: usize = 0;
    while k < lv.len()
        invariant
            p.i + lv@.len() <= cs@.len(),
            k <= lv@.len(),
            lv@ == lit@,
            p.wf(cs@.len() as int),
            forall|m: int| 0 <= m < k ==> cs@[p.i + m] == lit@[m],
        decreases lv@.len() - k,
    {
        if cs[p.i + k] != lv[k] {
            proof {
                assert(cs@.subrange(p.i as int, p.i + lit@.len()) != lit@) by {
                    assert(cs@.subrange(p.i as int, p.i + lit@.len())[k as int] != lit@[k as int]);
                }
            }
            return None;
        }
        k += 1;
    }
    proof {
        assert(cs@.subrange(p.i as int, p.i + lit@.len()) =~= lit@);
    }
    Some(EPos { i: p.i + lv.len(), line: p.line, col: p.col + lv.len() as u32 })
}

/// One scalar leaf in executable form.
struct RLeaf {
    path: Vec<String>,
    lnum: u32,
    col: u32,
    end_col: u32,
}

spec fn rl_view(l: RLeaf) -> SLeaf {
    SLeaf {
        path: crate::hardcoded::strs_views(l.path@),
        lnum: l.lnum as int,
        col: l.col as int,
        end_col: l.end_col as int,
    }
}

spec fn rl_views(s: Seq<RLeaf>) -> Seq<SLeaf>
    decreases s,
{
    if s.len() == 0 {
        Seq::empty()
    } else {
        rl_views(s.drop_last()).push(rl_view(s.last()))
    }
}

proof fn lemma_rl_views_index(s: Seq<RLeaf>, i: int)
    requires
        0 <= i < s.len(),
    ensures
        rl_views(s)[i] == rl_view(s[i]),
        rl_views(s).len() == s.len(),
    decreases s,
{
    if s.len() > 0 {
        if i < s.len() - 1 {
            lemma_rl_views_index(s.drop_last(), i);
        } else {
            lemma_rl_views_len(s.drop_last());
        }
    }
}

proof fn lemma_rl_views_len(s: Seq<RLeaf>)
    ensures
        rl_views(s).len() == s.len(),
    decreases s,
{
    if s.len() > 0 {
        lemma_rl_views_len(s.drop_last());
    }
}

/// An element-for-element copy, equal to its source.
fn clone_strs(v: &Vec<String>) -> (r: Vec<String>)
    ensures
        r@ == v@,
{
    let mut out: Vec<String> = Vec::new();
    let mut i: usize = 0;
    while i < v.len()
        invariant
            i <= v@.len(),
            out@ == v@.take(i as int),
        decreases v@.len() - i,
    {
        out.push(v[i].clone());
        proof {
            assert(out@ =~= v@.take(i as int + 1));
        }
        i += 1;
    }
    proof {
        assert(v@.take(v@.len() as int) =~= v@);
    }
    out
}

fn eobj(
    cs: &Vec<char>,
    p: EPos,
    fuel: usize,
    path: &Vec<String>,
    skip: bool,
    acc: Vec<RLeaf>,
) -> (r: Option<(Vec<RLeaf>, EPos)>)
    requires
        p.wf(cs@.len() as int),
    ensures
        match r {
            Some((leaves, q)) => robj(
                cs@,
                p@,
                fuel as nat,
                crate::hardcoded::strs_views(path@),
                skip,
                rl_views(acc@),
            ) == Some((rl_views(leaves@), q@)) && q.wf(cs@.len() as int),
            None => robj(
                cs@,
                p@,
                fuel as nat,
                crate::hardcoded::strs_views(path@),
                skip,
                rl_views(acc@),
            ) is None,
        },
    decreases fuel,
{
    let ghost len = cs@.len() as int;
    if fuel == 0 {
        return None;
    }
    if !(p.i < cs.len() && cs[p.i] == '{') {
        return None;
    }
    let p1 = ews(cs, eadv(p, '{', Ghost(len)));
    if p1.i < cs.len() && cs[p1.i] == '}' {
        Some((acc, eadv(p1, '}', Ghost(len))))
    } else {
        emembers(cs, p1, fuel - 1, path, skip, acc)
    }
}

fn emembers(
    cs: &Vec<char>,
    p: EPos,
    fuel: usize,
    path: &Vec<String>,
    skip: bool,
    acc: Vec<RLeaf>,
) -> (r: Option<(Vec<RLeaf>, EPos)>)
    requires
        p.wf(cs@.len() as int),
    ensures
        match r {
            Some((leaves, q)) => rmembers(
                cs@,
                p@,
                fuel as nat,
                crate::hardcoded::strs_views(path@),
                skip,
                rl_views(acc@),
            ) == Some((rl_views(leaves@), q@)) && q.wf(cs@.len() as int),
            None => rmembers(
                cs@,
                p@,
                fuel as nat,
                crate::hardcoded::strs_views(path@),
                skip,
                rl_views(acc@),
            ) is None,
        },
    decreases fuel,
{
    let ghost len = cs@.len() as int;
    if fuel == 0 {
        return None;
    }
    let key_line = p.line;
    let key_col = p.col;
    match estr(cs, p) {
        Some((key, pk)) => {
            let key_end_col = pk.col;
            let kstr = chars_to_string(key.as_slice());
            let mut child = clone_strs(path);
            let ghost pathv = crate::hardcoded::strs_views(path@);
            child.push(kstr);
            proof {
                assert(child@.drop_last() =~= path@);
                assert(crate::hardcoded::strs_views(child@) == pathv.push(child@.last()@));
            }
            let ghost keypos = SLeaf {
                path: pathv.push(key@),
                lnum: p.line as int,
                col: p.col as int,
                end_col: pk.col as int,
            };
            let p1 = ews(cs, pk);
            if p1.i < cs.len() && cs[p1.i] == ':' {
                let p2 = ews(cs, eadv(p1, ':', Ghost(len)));
                let kp = RLeaf {
                    path: child,
                    lnum: key_line,
                    col: key_col,
                    end_col: key_end_col,
                };
                proof {
                    assert(rl_view(kp) == keypos);
                }
                match evalue(cs, p2, fuel - 1, kp, skip, acc) {
                    Some((acc2, p3)) => {
                        let p4 = ews(cs, p3);
                        if p4.i < cs.len() && cs[p4.i] == ',' {
                            emembers(
                                cs,
                                ews(cs, eadv(p4, ',', Ghost(len))),
                                fuel - 1,
                                path,
                                skip,
                                acc2,
                            )
                        } else if p4.i < cs.len() && cs[p4.i] == '}' {
                            Some((acc2, eadv(p4, '}', Ghost(len))))
                        } else {
                            None
                        }
                    },
                    None => None,
                }
            } else {
                None
            }
        },
        None => None,
    }
}

fn evalue(cs: &Vec<char>, p: EPos, fuel: usize, keypos: RLeaf, skip: bool, acc: Vec<RLeaf>) -> (r:
    Option<(Vec<RLeaf>, EPos)>)
    requires
        p.wf(cs@.len() as int),
    ensures
        match r {
            Some((leaves, q)) => rvalue(
                cs@,
                p@,
                fuel as nat,
                crate::hardcoded::strs_views(keypos.path@),
                skip,
                rl_view(keypos),
                rl_views(acc@),
            ) == Some((rl_views(leaves@), q@)) && q.wf(cs@.len() as int),
            None => rvalue(
                cs@,
                p@,
                fuel as nat,
                crate::hardcoded::strs_views(keypos.path@),
                skip,
                rl_view(keypos),
                rl_views(acc@),
            ) is None,
        },
    decreases fuel,
{
    let mut acc = acc;
    if fuel == 0 {
        return None;
    }
    if p.i >= cs.len() {
        return None;
    }
    let c = cs[p.i];
    if c == '{' {
        eobj(cs, p, fuel - 1, &keypos.path, skip, acc)
    } else if c == '[' {
        earr(cs, p, fuel - 1, &keypos.path, acc)
    } else {
        let ghost kv = rl_view(keypos);
        if !skip {
            let ghost olda = acc@;
            acc.push(keypos);
            proof {
                assert(acc@.drop_last() =~= olda);
                assert(rl_views(acc@) == rl_views(olda).push(rl_view(acc@.last())));
                assert(rl_view(acc@.last()) == kv);
            }
        }
        if c == '"' {
            match estr(cs, p) {
                Some((v, p1)) => Some((acc, p1)),
                None => None,
            }
        } else if c == '-' || ('0' <= c && c <= '9') {
            match enum_scan(cs, p) {
                Some(p1) => Some((acc, p1)),
                None => None,
            }
        } else if c == 't' {
            match elit(cs, p, "true") {
                Some(p1) => Some((acc, p1)),
                None => None,
            }
        } else if c == 'f' {
            match elit(cs, p, "false") {
                Some(p1) => Some((acc, p1)),
                None => None,
            }
        } else if c == 'n' {
            match elit(cs, p, "null") {
                Some(p1) => Some((acc, p1)),
                None => None,
            }
        } else {
            None
        }
    }
}

fn earr(cs: &Vec<char>, p: EPos, fuel: usize, path: &Vec<String>, acc: Vec<RLeaf>) -> (r: Option<
    (Vec<RLeaf>, EPos),
>)
    requires
        p.wf(cs@.len() as int),
    ensures
        match r {
            Some((leaves, q)) => rarr(
                cs@,
                p@,
                fuel as nat,
                crate::hardcoded::strs_views(path@),
                rl_views(acc@),
            ) == Some((rl_views(leaves@), q@)) && q.wf(cs@.len() as int),
            None => rarr(
                cs@,
                p@,
                fuel as nat,
                crate::hardcoded::strs_views(path@),
                rl_views(acc@),
            ) is None,
        },
    decreases fuel,
{
    let ghost len = cs@.len() as int;
    if fuel == 0 {
        return None;
    }
    if !(p.i < cs.len() && cs[p.i] == '[') {
        return None;
    }
    let p1 = ews(cs, eadv(p, '[', Ghost(len)));
    if p1.i < cs.len() && cs[p1.i] == ']' {
        Some((acc, eadv(p1, ']', Ghost(len))))
    } else {
        eelems(cs, p1, fuel - 1, path, acc)
    }
}

fn eelems(cs: &Vec<char>, p: EPos, fuel: usize, path: &Vec<String>, acc: Vec<RLeaf>) -> (r: Option<
    (Vec<RLeaf>, EPos),
>)
    requires
        p.wf(cs@.len() as int),
    ensures
        match r {
            Some((leaves, q)) => relems(
                cs@,
                p@,
                fuel as nat,
                crate::hardcoded::strs_views(path@),
                rl_views(acc@),
            ) == Some((rl_views(leaves@), q@)) && q.wf(cs@.len() as int),
            None => relems(
                cs@,
                p@,
                fuel as nat,
                crate::hardcoded::strs_views(path@),
                rl_views(acc@),
            ) is None,
        },
    decreases fuel,
{
    let ghost len = cs@.len() as int;
    if fuel == 0 {
        return None;
    }
    match earrvalue(cs, p, fuel - 1, path, acc) {
        Some((acc2, p1)) => {
            let p2 = ews(cs, p1);
            if p2.i < cs.len() && cs[p2.i] == ',' {
                eelems(cs, ews(cs, eadv(p2, ',', Ghost(len))), fuel - 1, path, acc2)
            } else if p2.i < cs.len() && cs[p2.i] == ']' {
                Some((acc2, eadv(p2, ']', Ghost(len))))
            } else {
                None
            }
        },
        None => None,
    }
}

fn earrvalue(cs: &Vec<char>, p: EPos, fuel: usize, path: &Vec<String>, acc: Vec<RLeaf>) -> (r:
    Option<(Vec<RLeaf>, EPos)>)
    requires
        p.wf(cs@.len() as int),
    ensures
        match r {
            Some((leaves, q)) => rarrvalue(
                cs@,
                p@,
                fuel as nat,
                crate::hardcoded::strs_views(path@),
                rl_views(acc@),
            ) == Some((rl_views(leaves@), q@)) && q.wf(cs@.len() as int),
            None => rarrvalue(
                cs@,
                p@,
                fuel as nat,
                crate::hardcoded::strs_views(path@),
                rl_views(acc@),
            ) is None,
        },
    decreases fuel,
{
    if fuel == 0 {
        return None;
    }
    if p.i >= cs.len() {
        return None;
    }
    let c = cs[p.i];
    if c == '{' {
        eobj(cs, p, fuel - 1, path, true, acc)
    } else if c == '[' {
        earr(cs, p, fuel - 1, path, acc)
    } else if c == '"' {
        match estr(cs, p) {
            Some((v, p1)) => Some((acc, p1)),
            None => None,
        }
    } else if c == '-' || ('0' <= c && c <= '9') {
        match enum_scan(cs, p) {
            Some(p1) => Some((acc, p1)),
            None => None,
        }
    } else if c == 't' {
        match elit(cs, p, "true") {
            Some(p1) => Some((acc, p1)),
            None => None,
        }
    } else if c == 'f' {
        match elit(cs, p, "false") {
            Some(p1) => Some((acc, p1)),
            None => None,
        }
    } else if c == 'n' {
        match elit(cs, p, "null") {
            Some(p1) => Some((acc, p1)),
            None => None,
        }
    } else {
        None
    }
}

// ---------------------------------------------------------------------------
// The public analysis.
// ---------------------------------------------------------------------------

/// What a resource-extraction request carries: the resource text, the
/// namespace to apply (ignored under `is_root`, where the first key segment
/// names it), and an optional line-range filter.
pub struct ExtractResourceParams {
    pub source: String,
    pub namespace: String,
    pub is_root: bool,
    pub range: Option<Range>,
}

/// Extracts one usage record per scalar leaf of the resource object, with
/// the position of the leaf's own key.
pub fn extract_resource(params: ExtractResourceParams) -> (r: Result<Vec<ScanItem>, ParseError>)
    ensures
        r is Ok ==> resource_post(
            params.source@,
            params.namespace@,
            params.is_root,
            params.range,
            Ok(si_views(r->Ok_0@)),
        ),
        r is Err ==> resource_post(
            params.source@,
            params.namespace@,
            params.is_root,
            params.range,
            Err(r->Err_0.message@),
        ),
{
    let cs = string_chars(&params.source);
    if cs.len() >= 0x4000_0000 {
        return Err(
            ParseError { message: String::from_str("resource file is not a valid JSON object") },
        );
    }
    let p0 = ews(&cs, EPos { i: 0, line: 0, col: 0 });
    let empty_path: Vec<String> = Vec::new();
    proof {
        assert(crate::hardcoded::strs_views(Seq::<String>::empty()) =~= Seq::<Seq<char>>::empty());
        assert(rl_views(Seq::<RLeaf>::empty()) =~= Seq::<SLeaf>::empty());
    }
    match eobj(&cs, p0, cs.len() + 1, &empty_path, false, Vec::new()) {
        Some((leaves, p1)) => {
            let p2 = ews(&cs, p1);
            if p2.i != cs.len() {
                return Err(
                    ParseError {
                        message: String::from_str("resource file is not a valid JSON object"),
                    },
                );
            }
            // map leaves to records
            let mut out: Vec<ScanItem> = Vec::new();
            let mut i: usize = 0;
            let ghost lv = rl_views(leaves@);
            proof {
                lemma_rl_views_len(leaves@);
                assert(si_views(Seq::<ScanItem>::empty()) =~= Seq::<SScanItem>::empty());
                assert(lv.skip(0) =~= lv);
            }
            while i < leaves.len()
                invariant
                    i <= leaves@.len(),
                    lv == rl_views(leaves@),
                    lv.len() == leaves@.len(),
                    sp_leaf_items(
                        lv,
                        params.namespace@,
                        params.is_root,
                        params.range,
                        Seq::empty(),
                    ) == sp_leaf_items(
                        lv.skip(i as int),
                        params.namespace@,
                        params.is_root,
                        params.range,
                        si_views(out@),
                    ),
                decreases leaves@.len() - i,
            {
                proof {
                    lemma_rl_views_index(leaves@, i as int);
                    assert(lv.skip(i as int).first() == lv[i as int]);
                    assert(lv.skip(i as int).drop_first() =~= lv.skip(i as int + 1));
                }
                match leaf_item(&leaves[i], &params.namespace, params.is_root, &params.range) {
                    Some(it) => {
                        let ghost oldo = out@;
                        out.push(it);
                        proof {
                            assert(out@.drop_last() =~= oldo);
                            assert(si_views(out@) == si_views(oldo).push(si_view(out@.last())));
                        }
                    },
                    None => {},
                }
                i += 1;
            }
            proof {
                assert(lv.skip(i as int).len() == 0);
            }
            Ok(out)
        },
        None => Err(
            ParseError { message: String::from_str("resource file is not a valid JSON object") },
        ),
    }
}

fn leaf_item(leaf: &RLeaf, ns: &String, is_root: bool, range: &Option<Range>) -> (r: Option<
    ScanItem,
>)
    ensures
        match r {
            Some(it) => sp_leaf_item(rl_view(*leaf), ns@, is_root, *range) == Some(si_view(it)),
            None => sp_leaf_item(rl_view(*leaf), ns@, is_root, *range) is None,
        },
{
    let in_range = match range {
        Some(rg) => rg.start_line <= leaf.lnum && leaf.lnum <= rg.end_line,
        None => true,
    };
    if !in_range {
        return None;
    }
    proof {
        crate::hardcoded::lemma_strs_views_len(leaf.path@);
    }
    if is_root {
        if leaf.path.len() < 2 {
            return None;
        }
        proof {
            crate::hardcoded::lemma_strs_views_index(leaf.path@, 0);
        }
        let namespace = leaf.path[0].clone();
        proof {
            assert(crate::hardcoded::strs_views(leaf.path@).drop_first()
                =~= crate::hardcoded::strs_views(leaf.path@).skip(1));
        }
        let raw = join_dots(&leaf.path, 1);
        if raw.unicode_len() == 0 {
            return None;
        }
        let key = join_colon_r(&namespace, &raw);
        Some(
            ScanItem {
                key,
                raw,
                namespace,
                lnum: leaf.lnum,
                col: leaf.col,
                end_col: leaf.end_col,
                fallback: false,
            },
        )
    } else {
        if leaf.path.len() == 0 {
            return None;
        }
        proof {
            assert(crate::hardcoded::strs_views(leaf.path@).skip(0) =~= crate::hardcoded::strs_views(
                leaf.path@,
            ));
        }
        let raw = join_dots(&leaf.path, 0);
        let key = join_colon_r(ns, &raw);
        Some(
            ScanItem {
                key,
                raw,
                namespace: ns.clone(),
                lnum: leaf.lnum,
                col: leaf.col,
                end_col: leaf.end_col,
                fallback: false,
            },
        )
    }
}

/// `a + ":" + b`.
fn join_colon_r(a: &String, b: &String) -> (r: String)
    ensures
        r@ == a@ + ":"@ + b@,
{
    let mut out = a.clone();
    proof {
        reveal_strlit(":");
    }
    push_char(&mut out, ':');
    proof {
        assert(out@ =~= a@ + ":"@);
    }
    out.append(b.as_str());
    out
}

/// The segments from `from` on, joined with dots.
fn join_dots(parts: &Vec<String>, from: usize) -> (r: String)
    requires
        from <= parts@.len(),
    ensures
        r@ == sp_join(crate::hardcoded::strs_views(parts@).skip(from as int)),
    decreases parts@.len() - from,
{
    let ghost pv = crate::hardcoded::strs_views(parts@);
    proof {
        crate::hardcoded::lemma_strs_views_len(parts@);
    }
    if from >= parts.len() {
        proof {
            assert(pv.skip(from as int).len() == 0);
        }
        String::new()
    } else if from == parts.len() - 1 {
        proof {
            crate::hardcoded::lemma_strs_views_index(parts@, from as int);
            assert(pv.skip(from as int).len() == 1);
            assert(pv.skip(from as int).first() == pv[from as int]);
        }
        parts[from].clone()
    } else {
        proof {
            crate::hardcoded::lemma_strs_views_index(parts@, from as int);
            assert(pv.skip(from as int).first() == pv[from as int]);
            assert(pv.skip(from as int).drop_first() =~= pv.skip(from as int + 1));
            assert(pv.skip(from as int).len() > 1);
        }
        let rest = join_dots(parts, from + 1);
        let mut out = parts[from].clone();
        proof {
            reveal_strlit(".");
        }
        push_char(&mut out, '.');
        proof {
            assert(out@ =~= pv[from as int] + "."@);
        }
        out.append(rest.as_str());
        out
    }
}


/// Running resource extraction twice on identical input yields identical
/// ordered output: the whole result, success or failure, is one function of
/// the request.
pub proof fn lemma_extract_resource_deterministic(
    source: Seq<char>,
    ns: Seq<char>,
    is_root: bool,
    range: Option<Range>,
    r1: Result<Seq<SScanItem>, Seq<char>>,
    r2: Result<Seq<SScanItem>, Seq<char>>,
)
    requires
        resource_post(source, ns, is_root, range, r1),
        resource_post(source, ns, is_root, range, r2),
    ensures
        r1 == r2,
{
}

} // verus!
